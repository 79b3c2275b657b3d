//! Generic helpers that turn a collection of `Result`s inside out.

use vstd::prelude::*;

verus! {

/// Holds exactly when every element of `s` is `Ok`.
pub open spec fn all_ok<A, E>(s: Seq<Result<A, E>>) -> bool {
    forall|i: int| 0 <= i < s.len() ==> s[i] is Ok
}

/// The sequence of payloads of a sequence of results, assuming all are `Ok`.
pub open spec fn ok_values<A, E>(s: Seq<Result<A, E>>) -> Seq<A> {
    s.map_values(|r: Result<A, E>| r->Ok_0)
}

/// The index of the first `Err` in `s`, when one exists.
pub open spec fn first_err_index<A, E>(s: Seq<Result<A, E>>) -> int {
    choose|i: int|
        0 <= i < s.len() && s[i] is Err && (forall|j: int| 0 <= j < i ==> s[j] is Ok)
}

/// Turns a vector of results into a result of a vector: `Ok` holding every
/// payload in order when all elements are `Ok`, and otherwise the first
/// `Err` encountered.
pub fn traverse_vec<A, E>(values: Vec<Result<A, E>>) -> (r: Result<Vec<A>, E>)
    ensures
        (r is Ok) <==> all_ok(values@),
        r is Ok ==> r->Ok_0@ == ok_values(values@),
        r is Err ==> {
            let i = first_err_index(values@);
            &&& 0 <= i < values@.len()
            &&& values@[i] is Err
            &&& r->Err_0 == values@[i]->Err_0
            &&& forall|j: int| 0 <= j < i ==> values@[j] is Ok
        },
{
    let ghost orig: Seq<Result<A, E>> = values@;
    let mut rest = values;
    let mut parsed: Vec<A> = Vec::new();
    let ghost mut taken: int = 0;
    #[verifier::loop_isolation(false)]
    while rest.len() > 0
        invariant
            0 <= taken <= orig.len(),
            rest@ == orig.skip(taken),
            parsed@ == ok_values(orig.take(taken)),
            forall|j: int| 0 <= j < taken ==> orig[j] is Ok,
        decreases rest@.len(),
    {
        let value = rest.remove(0);
        match value {
            Ok(value) => {
                parsed.push(value);
                proof {
                    assert(orig.take(taken + 1).drop_last() =~= orig.take(taken));
                    assert(parsed@ =~= ok_values(orig.take(taken + 1)));
                    taken = taken + 1;
                    assert(rest@ =~= orig.skip(taken));
                }
            },
            Err(error) => {
                proof {
                    let i0 = taken;
                    assert(orig.skip(taken)[0] == orig[taken]);
                    assert(orig[i0] is Err && orig[i0]->Err_0 == error);
                    assert(!all_ok(orig));
                    let i = first_err_index(orig);
                    assert(0 <= i < orig.len() && orig[i] is Err && (forall|j: int|
                        0 <= j < i ==> orig[j] is Ok)) by {
                        assert(0 <= i0 < orig.len() && orig[i0] is Err && (forall|j: int|
                            0 <= j < i0 ==> orig[j] is Ok));
                    }
                    assert(i == i0) by {
                        if i < i0 {
                            assert(orig[i] is Ok);
                        }
                        if i0 < i {
                            assert(orig[i0] is Ok);
                        }
                    }
                }
                return Err(error);
            },
        }
    }
    proof {
        assert(taken == orig.len());
        assert(orig.take(taken) =~= orig);
    }
    Ok(parsed)
}

/// The value `traverse_option` must return for a given argument.
pub open spec fn traverse_option_spec<A, E>(opt: Option<Result<A, E>>) -> Result<Option<A>, E> {
    match opt {
        Some(Ok(a)) => Ok(Some(a)),
        Some(Err(e)) => Err(e),
        None => Ok(None),
    }
}

/// Turns an optional result into a result of an optional value.
pub fn traverse_option<A, E>(opt: Option<Result<A, E>>) -> (r: Result<Option<A>, E>)
    ensures
        r == traverse_option_spec(opt),
{
    match opt {
        Some(Ok(a)) => Ok(Some(a)),
        Some(Err(e)) => Err(e),
        None => Ok(None),
    }
}

} // verus!
