//! What the dashboard's commands compute around the providers.
use vstd::prelude::*;

use crate::paths::{path_file_stem, stem_or_empty};
use crate::provider::{VpnError, VpnStatus};
use crate::text::{append_str, owned};

verus! {

broadcast use vstd::string::group_string_axioms;

/// A WireGuard configuration file as the dashboard offers it.
#[derive(Debug, Clone)]
pub struct WgConfigInfo {
    pub name: String,
    pub path: String,
}

impl WgConfigInfo {
    /// The entry for a configuration file: named by the file's stem (empty when
    /// it has none).
    pub fn from_path(path: String) -> (info: Self)
        ensures
            info.path == path,
            info.name@ == match path_file_stem(path@) {
                Some(t) => t,
                None => Seq::<char>::empty(),
            },
    {
        let name = stem_or_empty(path.as_str());
        WgConfigInfo { name, path }
    }
}

/// The statuses among the results, in order; failed providers are left out.
pub open spec fn ok_statuses(results: Seq<Result<VpnStatus, VpnError>>) -> Seq<VpnStatus>
    decreases results.len(),
{
    if results.len() == 0 {
        seq![]
    } else {
        match results.last() {
            Ok(st) => ok_statuses(results.drop_last()).push(st),
            Err(_) => ok_statuses(results.drop_last()),
        }
    }
}

/// Listing statuses goes result by result: the list for two runs of results
/// one after the other is the list for the first followed by the list for the
/// second, so a failed provider never hides the answers of the others.
pub proof fn law_ok_statuses_append(a: Seq<Result<VpnStatus, VpnError>>, b: Seq<Result<VpnStatus, VpnError>>)
    ensures
        ok_statuses(a + b) == ok_statuses(a) + ok_statuses(b),
    decreases b.len(),
{
    if b.len() == 0 {
        assert(a + b =~= a);
        assert(ok_statuses(a) + ok_statuses(b) =~= ok_statuses(a));
    } else {
        assert((a + b).drop_last() =~= a + b.drop_last());
        assert((a + b).last() == b.last());
        law_ok_statuses_append(a, b.drop_last());
        match b.last() {
            Ok(st) => {
                assert(ok_statuses(a) + ok_statuses(b) =~= (ok_statuses(a) + ok_statuses(b.drop_last())).push(st));
            },
            Err(_) => {},
        }
    }
}

/// One answer is listed as itself; one failure is left out.
pub proof fn law_ok_statuses_single(st: VpnStatus, e: VpnError)
    ensures
        ok_statuses(seq![Ok(st)]) == seq![st],
        ok_statuses(seq![Err(e)]) == Seq::<VpnStatus>::empty(),
{
    let ok: Seq<Result<VpnStatus, VpnError>> = seq![Ok(st)];
    let err: Seq<Result<VpnStatus, VpnError>> = seq![Err(e)];
    assert(ok.drop_last() =~= Seq::<Result<VpnStatus, VpnError>>::empty());
    assert(err.drop_last() =~= Seq::<Result<VpnStatus, VpnError>>::empty());
    assert(ok.last() == Ok::<VpnStatus, VpnError>(st));
    assert(ok_statuses(Seq::<Result<VpnStatus, VpnError>>::empty()) =~= Seq::<VpnStatus>::empty());
    assert(ok_statuses(ok) == Seq::<VpnStatus>::empty().push(st));
    assert(Seq::<VpnStatus>::empty().push(st) =~= seq![st]);
}

/// Every answer is listed: the status of a provider that answered, wherever it
/// stands among the results, is among the listed statuses, at its place after
/// the answers before it.
pub proof fn law_every_answer_listed(results: Seq<Result<VpnStatus, VpnError>>, i: int, st: VpnStatus)
    requires
        0 <= i < results.len(),
        results[i] == Ok::<VpnStatus, VpnError>(st),
    ensures
        ok_statuses(results).contains(st),
        ok_statuses(results)[ok_statuses(results.take(i)).len() as int] == st,
{
    let before = results.take(i);
    let here: Seq<Result<VpnStatus, VpnError>> = seq![results[i]];
    let after = results.skip(i + 1);
    assert(results =~= before + here + after);
    law_ok_statuses_append(before + here, after);
    law_ok_statuses_append(before, here);
    law_ok_statuses_single(st, VpnError::NotInstalled);
    let k = ok_statuses(before).len() as int;
    assert(ok_statuses(results)[k] == st);
}

/// The statuses of the providers that answered, in order.
pub fn collect_statuses(results: Vec<Result<VpnStatus, VpnError>>) -> (r: Vec<VpnStatus>)
    ensures
        r@ == ok_statuses(results@),
{
    let ghost all = results@;
    let n = results.len();
    let mut rest = results;
    let mut reversed: Vec<Result<VpnStatus, VpnError>> = Vec::new();
    proof {
        assert(all =~= rest@ + reversed@.reverse());
    }
    while rest.len() > 0
        invariant
            all == rest@ + reversed@.reverse(),
        decreases rest@.len(),
    {
        let ghost before = rest@;
        let ghost rev_before = reversed@;
        let x = rest.pop().unwrap();
        reversed.push(x);
        proof {
            assert(before =~= rest@.push(x));
            assert(reversed@.reverse() =~= seq![x] + rev_before.reverse());
            assert(all =~= rest@ + reversed@.reverse());
        }
    }
    let mut r: Vec<VpnStatus> = Vec::new();
    let mut done: usize = 0;
    proof {
        assert(all =~= reversed@.reverse());
        assert(all.subrange(0, 0) =~= Seq::<Result<VpnStatus, VpnError>>::empty());
        assert(all.subrange(0, all.len() as int) =~= all);
    }
    while reversed.len() > 0
        invariant
            reversed@.reverse() == all.subrange(done as int, all.len() as int),
            done + reversed@.len() == all.len(),
            all.len() == n,
            r@ == ok_statuses(all.subrange(0, done as int)),
        decreases reversed@.len(),
    {
        let ghost rev_before = reversed@;
        let x = reversed.pop().unwrap();
        proof {
            assert(rev_before.reverse()[0] == x);
            assert(all[done as int] == x) by {
                assert(all.subrange(done as int, all.len() as int)[0] == all[done as int]);
            }
            assert(reversed@.reverse() =~= rev_before.reverse().drop_first());
            assert(all.subrange(done + 1, all.len() as int) =~= all.subrange(done as int, all.len() as int).drop_first());
            assert(all.subrange(0, done + 1).drop_last() =~= all.subrange(0, done as int));
            assert(all.subrange(0, done + 1).last() == x);
        }
        match x {
            Ok(st) => r.push(st),
            Err(_) => {},
        }
        done = done + 1;
    }
    proof {
        assert(all.subrange(0, done as int) =~= all);
    }
    r
}

/// The error text for a provider name that matches no provider.
pub fn provider_not_found(name: &str) -> (s: String)
    ensures
        s@ == "Provider '"@ + name@ + "' not found"@,
{
    let mut s = owned("Provider '");
    append_str(&mut s, name);
    append_str(&mut s, "' not found");
    s
}

/// The listed statuses are exactly the answers, in order: never more than the
/// providers asked, and each one an answer some provider gave.
pub proof fn law_ok_statuses(results: Seq<Result<VpnStatus, VpnError>>)
    ensures
        ok_statuses(results).len() <= results.len(),
        forall|i: int| 0 <= i < ok_statuses(results).len() ==> results.contains(Ok(#[trigger] ok_statuses(results)[i])),
        (forall|i: int| 0 <= i < results.len() ==> results[i] is Ok) ==> ok_statuses(results).len() == results.len(),
    decreases results.len(),
{
    if results.len() > 0 {
        let init = results.drop_last();
        law_ok_statuses(init);
        let r = ok_statuses(results);
        assert forall|i: int| 0 <= i < r.len() implies results.contains(Ok(#[trigger] r[i])) by {
            if i < ok_statuses(init).len() {
                assert(r[i] == ok_statuses(init)[i]);
                let j = choose|j: int| 0 <= j < init.len() && init[j] == Ok::<VpnStatus, VpnError>(ok_statuses(init)[i]);
                assert(results[j] == init[j]);
            } else {
                assert(results[results.len() - 1] == results.last());
            }
        }
        if forall|i: int| 0 <= i < results.len() ==> results[i] is Ok {
            assert forall|i: int| 0 <= i < init.len() implies init[i] is Ok by {
                assert(init[i] == results[i]);
            }
            assert(results[results.len() - 1] is Ok);
        }
    }
}

} // verus!
