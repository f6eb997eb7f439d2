//! Facts about lists that several modules rest on.

use vstd::prelude::*;

verus! {

/// The first of a list that fits stands first among those that fit.
pub proof fn lemma_first_of_filter<T>(list: Seq<T>, i: int, fits: spec_fn(T) -> bool)
    requires
        0 <= i < list.len(),
        fits(list[i]),
        list.take(i).filter(fits).len() == 0,
    ensures
        list.filter(fits).len() > 0,
        list.filter(fits)[0] == list[i],
    decreases list.len(),
{
    reveal(Seq::filter);
    if i == list.len() - 1 {
        assert(list.take(i) =~= list.drop_last());
    } else {
        assert(list.drop_last().take(i) =~= list.take(i));
        lemma_first_of_filter(list.drop_last(), i, fits);
    }
}

/// A list keeps everything if everything fits.
pub proof fn lemma_all_kept<T>(list: Seq<T>, fits: spec_fn(T) -> bool)
    requires
        forall|i: int| 0 <= i < list.len() ==> fits(#[trigger] list[i]),
    ensures
        list.filter(fits) == list,
    decreases list.len(),
{
    reveal(Seq::filter);
    if list.len() > 0 {
        lemma_all_kept(list.drop_last(), fits);
        assert(fits(list[list.len() - 1]));
        assert(list.drop_last().push(list.last()) =~= list);
    } else {
        assert(list.filter(fits) =~= list);
    }
}

/// A list keeps nothing if nothing fits.
pub proof fn lemma_none_kept<T>(list: Seq<T>, fits: spec_fn(T) -> bool)
    requires
        forall|i: int| 0 <= i < list.len() ==> !fits(#[trigger] list[i]),
    ensures
        list.filter(fits) == Seq::<T>::empty(),
    decreases list.len(),
{
    reveal(Seq::filter);
    if list.len() > 0 {
        lemma_none_kept(list.drop_last(), fits);
        assert(!fits(list[list.len() - 1]));
    }
}

/// What a list keeps fits, and stood in the list.
pub proof fn lemma_kept_is_part<T>(list: Seq<T>, fits: spec_fn(T) -> bool, i: int)
    requires
        0 <= i < list.filter(fits).len(),
    ensures
        fits(list.filter(fits)[i]),
        list.contains(list.filter(fits)[i]),
    decreases list.len(),
{
    reveal(Seq::filter);
    if list.len() > 0 {
        let before = list.drop_last();
        if i < before.filter(fits).len() {
            lemma_kept_is_part(before, fits, i);
            let k = choose|k: int| 0 <= k < before.len() && before[k] == before.filter(fits)[i];
            assert(list[k] == list.filter(fits)[i]);
        } else {
            assert(list[list.len() - 1] == list.filter(fits)[i]);
        }
    }
}

/// What fits is kept.
pub proof fn lemma_fitting_is_kept<T>(list: Seq<T>, fits: spec_fn(T) -> bool, i: int)
    requires
        0 <= i < list.len(),
        fits(list[i]),
    ensures
        list.filter(fits).contains(list[i]),
    decreases list.len(),
{
    reveal(Seq::filter);
    let before = list.drop_last();
    let kept = list.filter(fits);
    if i < list.len() - 1 {
        lemma_fitting_is_kept(before, fits, i);
        let k = choose|k: int|
            0 <= k < before.filter(fits).len() && before.filter(fits)[k] == list[i];
        assert(kept[k] == list[i]);
    } else {
        assert(kept[kept.len() - 1] == list[i]);
    }
}

/// A list holds what was put behind it, and what it held before.
pub proof fn lemma_pushed<T>(list: Seq<T>, last: T, other: T)
    ensures
        list.push(last).contains(other) == (list.contains(other) || other == last),
{
    let longer = list.push(last);
    if longer.contains(other) {
        let i = choose|i: int| 0 <= i < longer.len() && longer[i] == other;
        if i < list.len() {
            assert(list[i] == other);
        }
    }
    if list.contains(other) {
        let i = choose|i: int| 0 <= i < list.len() && list[i] == other;
        assert(longer[i] == other);
    }
    assert(longer[list.len() as int] == last);
}

/// The first that fits is the first of those that do.
pub proof fn lemma_first<T>(list: Seq<T>, fits: spec_fn(T) -> bool, i: int)
    requires
        0 <= i < list.len(),
        fits(list[i]),
        forall|j: int| 0 <= j < i ==> !fits(#[trigger] list[j]),
    ensures
        list.filter(fits).len() > 0,
        list.filter(fits)[0] == list[i],
{
    let before = list.take(i);
    assert forall|j: int| 0 <= j < before.len() implies !fits(#[trigger] before[j]) by {
        assert(before[j] == list[j]);
    }
    lemma_none_kept(before, fits);
    lemma_first_of_filter(list, i, fits);
}

/// The only one that fits is all of those that do.
pub proof fn lemma_only<T>(list: Seq<T>, fits: spec_fn(T) -> bool, i: int)
    requires
        0 <= i < list.len(),
        fits(list[i]),
        forall|j: int| 0 <= j < list.len() && j != i ==> !fits(#[trigger] list[j]),
    ensures
        list.filter(fits) == seq![list[i]],
    decreases list.len(),
{
    reveal(Seq::filter);
    let before = list.drop_last();
    if i == list.len() - 1 {
        assert forall|j: int| 0 <= j < before.len() implies !fits(#[trigger] before[j]) by {
            assert(before[j] == list[j]);
        }
        lemma_none_kept(before, fits);
        assert(list.filter(fits) =~= seq![list[i]]);
    } else {
        assert(before[i] == list[i]);
        assert forall|j: int| 0 <= j < before.len() && j != i implies !fits(
            #[trigger] before[j],
        ) by {
            assert(before[j] == list[j]);
        }
        lemma_only(before, fits, i);
        assert(!fits(list[list.len() - 1]));
    }
}

} // verus!
