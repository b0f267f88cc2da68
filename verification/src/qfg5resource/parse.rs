//! Specification combinators for repeated records.
use crate::qfg5resource::error::DecodeError;
use vstd::prelude::*;

verus! {

/// What reading `n` records one after the other yields, the first at `pos`:
/// the records and the position behind the last one, or the error of the
/// first record that fails. `item` reads one record at a position and gives
/// the position behind it.
pub open spec fn parse_many<T>(
    item: spec_fn(int) -> Result<(T, int), DecodeError>,
    pos: int,
    n: nat,
) -> Result<(Seq<T>, int), DecodeError>
    decreases n,
{
    if n == 0 {
        Ok((Seq::empty(), pos))
    } else {
        match parse_many(item, pos, (n - 1) as nat) {
            Err(e) => Err(e),
            Ok((items, next)) => match item(next) {
                Err(e) => Err(e),
                Ok((x, end)) => Ok((items.push(x), end)),
            },
        }
    }
}

/// What reading the records number `0` to `n - 1` yields, each found by its
/// number: the records, or the error of the first one that fails.
pub open spec fn parse_each<T>(item: spec_fn(int) -> Result<T, DecodeError>, n: nat) -> Result<
    Seq<T>,
    DecodeError,
>
    decreases n,
{
    if n == 0 {
        Ok(Seq::empty())
    } else {
        match parse_each(item, (n - 1) as nat) {
            Err(e) => Err(e),
            Ok(items) => match item(n - 1) {
                Err(e) => Err(e),
                Ok(x) => Ok(items.push(x)),
            },
        }
    }
}

/// Once a record fails, every longer run fails with the same error.
pub proof fn lemma_many_fails<T>(
    item: spec_fn(int) -> Result<(T, int), DecodeError>,
    pos: int,
    k: nat,
    n: nat,
)
    requires
        k <= n,
        parse_many(item, pos, k) is Err,
    ensures
        parse_many(item, pos, n) == parse_many(item, pos, k),
    decreases n,
{
    if k < n {
        lemma_many_fails(item, pos, k, (n - 1) as nat);
    }
}

/// Once a record fails, every longer run fails with the same error.
pub proof fn lemma_each_fails<T>(item: spec_fn(int) -> Result<T, DecodeError>, k: nat, n: nat)
    requires
        k <= n,
        parse_each(item, k) is Err,
    ensures
        parse_each(item, n) == parse_each(item, k),
    decreases n,
{
    if k < n {
        lemma_each_fails(item, k, (n - 1) as nat);
    }
}

/// In a run that succeeds every record succeeds.
pub proof fn lemma_each_items_ok<T>(item: spec_fn(int) -> Result<T, DecodeError>, n: nat)
    requires
        parse_each(item, n) is Ok,
    ensures
        forall|j: int| 0 <= j < n ==> (#[trigger] item(j)) is Ok,
    decreases n,
{
    if n > 0 {
        lemma_each_items_ok(item, (n - 1) as nat);
    }
}

/// A run of records that all succeed succeeds.
pub proof fn lemma_each_all_ok<T>(item: spec_fn(int) -> Result<T, DecodeError>, i: nat)
    requires
        forall|j: int| 0 <= j < i ==> (#[trigger] item(j)) is Ok,
    ensures
        parse_each(item, i) is Ok,
    decreases i,
{
    if i > 0 {
        assert(item(i - 1) is Ok);
        lemma_each_all_ok(item, (i - 1) as nat);
    }
}

/// A run fails with the error of its first record that fails.
pub proof fn lemma_each_first_failure<T>(
    item: spec_fn(int) -> Result<T, DecodeError>,
    i: nat,
    n: nat,
)
    requires
        i < n,
        forall|j: int| 0 <= j < i ==> (#[trigger] item(j)) is Ok,
        item(i as int) is Err,
    ensures
        parse_each(item, i) is Ok,
        parse_each(item, n) == Err::<Seq<T>, _>(item(i as int)->Err_0),
    decreases i,
{
    if i > 0 {
        assert(item(i - 1) is Ok);
        lemma_each_all_ok(item, i);
    }
    assert(parse_each(item, (i + 1) as nat) == Err::<Seq<T>, _>(item(i as int)->Err_0));
    lemma_each_fails(item, (i + 1) as nat, n);
}

/// The views of the elements of `s`.
pub open spec fn views<T: View>(s: Seq<T>) -> Seq<T::V> {
    Seq::new(s.len(), |i: int| s[i]@)
}

/// Appending an element appends its view.
pub proof fn lemma_views_push<T: View>(s: Seq<T>, x: T)
    ensures
        views(s.push(x)) == views(s).push(x@),
{
    assert(views(s.push(x)) =~= views(s).push(x@));
}

} // verus!
