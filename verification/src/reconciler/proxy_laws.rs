//! What applying the changes to proxy hosts leads to.

use crate::proxy_provider::{ProxyChangeView, ProxyHostView};
use crate::reconciler::diff;
use crate::order;
use vstd::prelude::*;

verus! {

/// The host under the id that the proxy gave it.
pub open spec fn named_host(host: ProxyHostView, id: Seq<char>) -> ProxyHostView {
    ProxyHostView { id: Some(id), ..host }
}

/// The hosts of a proxy after a change. A new host gets the id `id`.
pub open spec fn host_applied(
    hosts: Set<ProxyHostView>,
    change: ProxyChangeView,
    id: Seq<char>,
) -> Set<ProxyHostView> {
    match change {
        ProxyChangeView::Create(host) => hosts.insert(named_host(host, id)),
        ProxyChangeView::Update { id: at, host } => Set::new(
            |r: ProxyHostView| hosts.contains(r) && r.id != Some(at),
        ).insert(named_host(host, at)),
        ProxyChangeView::Delete { id: at } => Set::new(
            |r: ProxyHostView| hosts.contains(r) && r.id != Some(at),
        ),
    }
}

/// The hosts of a proxy after a list of changes. What the change at place `i`
/// creates gets the id `ids(i)`.
pub open spec fn hosts_applied(
    hosts: Set<ProxyHostView>,
    changes: Seq<ProxyChangeView>,
    ids: spec_fn(int) -> Seq<char>,
) -> Set<ProxyHostView>
    decreases changes.len(),
{
    if changes.len() == 0 {
        hosts
    } else {
        host_applied(
            hosts_applied(hosts, changes.drop_last(), ids),
            changes.last(),
            ids(changes.len() - 1),
        )
    }
}

/// The first domain of a host, if it has one.
pub open spec fn first_domain(host: ProxyHostView) -> Option<Seq<char>> {
    if host.domains.len() > 0 {
        Some(host.domains[0])
    } else {
        None
    }
}

/// Hosts that all have an id, and of which an id or a first domain leads to one
/// at most.
pub open spec fn sound_hosts(hosts: Set<ProxyHostView>) -> bool {
    &&& forall|r: ProxyHostView| #[trigger] hosts.contains(r) ==> r.id is Some
    &&& forall|r: ProxyHostView, s: ProxyHostView| #[trigger]
        hosts.contains(r) && #[trigger] hosts.contains(s) && r.id == s.id ==> r == s
    &&& forall|r: ProxyHostView, s: ProxyHostView| #[trigger]
        hosts.contains(r) && #[trigger] hosts.contains(s) && first_domain(r) is Some
            && first_domain(r) == first_domain(s) ==> r == s
}

/// Ids that differ from each other and from all ids of some hosts.
pub open spec fn fresh_host_ids(
    hosts: Set<ProxyHostView>,
    ids: spec_fn(int) -> Seq<char>,
) -> bool {
    &&& forall|i: int, j: int| i != j ==> #[trigger] ids(i) != #[trigger] ids(j)
    &&& forall|r: ProxyHostView, i: int| #[trigger] hosts.contains(r) ==> r.id != Some(
        #[trigger] ids(i),
    )
}

/// Whether the actual hosts have the first domains of the desired ones and are the
/// same under each. Hosts without a domain do not count, and of several with the
/// same first domain the last does, so this compares what a change is decided by.
pub open spec fn hosts_in_sync(
    desired: Seq<ProxyHostView>,
    actual: Seq<ProxyHostView>,
) -> bool {
    let d = diff::hosts_by_domain(desired);
    let a = diff::hosts_by_domain(actual);
    &&& a.dom() == d.dom()
    &&& forall|k: Seq<char>| #[trigger]
        d.dom().contains(k) ==> diff::same_host(d[k], a[k])
}

/// Whether a host is as desired under its first domain.
pub open spec fn is_desired_host(desired: Seq<ProxyHostView>, host: ProxyHostView) -> bool {
    let d = diff::hosts_by_domain(desired);
    &&& first_domain(host) is Some
    &&& d.dom().contains(host.domains[0])
    &&& diff::same_host(d[host.domains[0]], host)
}

/// The host under a domain is one of the hosts and has that first domain.
pub proof fn lemma_by_domain(hosts: Seq<ProxyHostView>)
    ensures
        diff::hosts_by_domain(hosts).dom().finite(),
        forall|i: int|
            0 <= i < hosts.len() && first_domain(#[trigger] hosts[i]) is Some
                ==> diff::hosts_by_domain(hosts).dom().contains(first_domain(hosts[i])->0),
        forall|k: Seq<char>| #[trigger]
            diff::hosts_by_domain(hosts).dom().contains(k) ==> {
                let r = diff::hosts_by_domain(hosts)[k];
                hosts.contains(r) && first_domain(r) == Some(k)
            },
    decreases hosts.len(),
{
    if hosts.len() > 0 {
        let before = hosts.drop_last();
        lemma_by_domain(before);
        assert forall|i: int| 0 <= i < hosts.len() && first_domain(
            #[trigger] hosts[i],
        ) is Some implies diff::hosts_by_domain(hosts).dom().contains(
            first_domain(hosts[i])->0,
        ) by {
            if i < before.len() {
                assert(hosts[i] == before[i]);
            }
        }
        assert forall|k: Seq<char>| #[trigger]
            diff::hosts_by_domain(hosts).dom().contains(k) implies ({
            let r = diff::hosts_by_domain(hosts)[k];
            hosts.contains(r) && first_domain(r) == Some(k)
        }) by {
            if first_domain(hosts.last()) == Some(k) {
                assert(hosts[hosts.len() - 1] == hosts.last());
            } else {
                assert(diff::hosts_by_domain(before).dom().contains(k));
                let r = diff::hosts_by_domain(before)[k];
                let i = choose|i: int| 0 <= i < before.len() && before[i] == r;
                assert(hosts[i] == r);
            }
        }
    }
}

/// Where the actual hosts are the desired ones, nothing is changed.
pub proof fn law_hosts_in_sync_need_no_change(
    desired: Seq<ProxyHostView>,
    actual: Seq<ProxyHostView>,
)
    requires
        hosts_in_sync(desired, actual),
    ensures
        diff::proxy_diff(desired, actual) == Seq::<ProxyChangeView>::empty(),
{
    let d = diff::hosts_by_domain(desired);
    let a = diff::hosts_by_domain(actual);
    lemma_by_domain(desired);
    lemma_by_domain(actual);
    order::law_ascending_lists::<String>(d.dom());
    let names = order::ascending::<String>(d.dom());
    let upserts = names.map_values(
        |k: Seq<char>| diff::host_upsert(k, d, a),
    );
    let deletes = names.map_values(
        |k: Seq<char>| diff::host_delete(k, d, a),
    );
    assert forall|i: int| 0 <= i < names.len() implies upserts[i] is None && deletes[i] is None by {
        assert(names.contains(names[i]));
        assert(d.dom().contains(names[i]));
    }
    diff::lemma_no_somes(upserts);
    diff::lemma_no_somes(deletes);
    assert(diff::proxy_diff(desired, actual) =~= Seq::<ProxyChangeView>::empty());
}

spec fn has_domain(hosts: Set<ProxyHostView>, k: Seq<char>) -> bool {
    exists|r: ProxyHostView| #[trigger] hosts.contains(r) && first_domain(r) == Some(k)
}

spec fn ids_left(hosts: Set<ProxyHostView>, ids: spec_fn(int) -> Seq<char>, n: int) -> bool {
    forall|r: ProxyHostView, i: int| #[trigger]
        hosts.contains(r) && i >= n ==> r.id != Some(#[trigger] ids(i))
}

/// The hosts once the names in `done` have been created or updated.
spec fn upserted(
    hosts: Set<ProxyHostView>,
    done: Seq<Seq<char>>,
    d: Map<Seq<char>, ProxyHostView>,
    a: Map<Seq<char>, ProxyHostView>,
) -> bool {
    &&& sound_hosts(hosts)
    &&& forall|r: ProxyHostView| #[trigger]
        hosts.contains(r) && first_domain(r) is Some ==> if done.contains(r.domains[0]) {
            diff::same_host(d[r.domains[0]], r)
        } else {
            a.dom().contains(r.domains[0]) && r == a[r.domains[0]]
        }
    &&& forall|k: Seq<char>|
        a.dom().contains(k) || done.contains(k) ==> #[trigger] has_domain(hosts, k)
}

/// The hosts once the names in `gone` that nobody desires have been deleted.
spec fn pruned(
    hosts: Set<ProxyHostView>,
    gone: Seq<Seq<char>>,
    d: Map<Seq<char>, ProxyHostView>,
    a: Map<Seq<char>, ProxyHostView>,
) -> bool {
    &&& sound_hosts(hosts)
    &&& forall|r: ProxyHostView| #[trigger]
        hosts.contains(r) && first_domain(r) is Some ==> if d.dom().contains(r.domains[0]) {
            diff::same_host(d[r.domains[0]], r)
        } else {
            &&& a.dom().contains(r.domains[0])
            &&& !gone.contains(r.domains[0])
            &&& r == a[r.domains[0]]
        }
    &&& forall|k: Seq<char>|
        d.dom().contains(k) || (a.dom().contains(k) && !gone.contains(k)) ==> #[trigger] has_domain(
            hosts,
            k,
        )
}

proof fn lemma_upsert_step(
    hosts: Set<ProxyHostView>,
    done: Seq<Seq<char>>,
    k: Seq<char>,
    d: Map<Seq<char>, ProxyHostView>,
    a: Map<Seq<char>, ProxyHostView>,
    ids: spec_fn(int) -> Seq<char>,
    n: int,
)
    requires
        upserted(hosts, done, d, a),
        ids_left(hosts, ids, n),
        forall|i: int, j: int| i != j ==> #[trigger] ids(i) != #[trigger] ids(j),
        !done.contains(k),
        first_domain(d[k]) == Some(k),
    ensures
        match diff::host_upsert(k, d, a) {
            Some(change) => upserted(host_applied(hosts, change, ids(n)), done.push(k), d, a)
                && ids_left(host_applied(hosts, change, ids(n)), ids, n + 1),
            None => upserted(hosts, done.push(k), d, a),
        },
{
    let now = done.push(k);
    assert forall|x: Seq<char>| now.contains(x) <==> done.contains(x) || x
        == k by {
        if done.contains(x) {
            let i = choose|i: int| 0 <= i < done.len() && done[i] == x;
            assert(now[i] == x);
        }
        assert(now[done.len() as int] == k);
    }
    if a.dom().contains(k) {
        assert(has_domain(hosts, k));
        let held = choose|r: ProxyHostView| #[trigger]
            hosts.contains(r) && first_domain(r) == Some(k);
        assert(held == a[k]);
    }
    match diff::host_upsert(k, d, a) {
        Some(change) => {
            let next = host_applied(hosts, change, ids(n));
            let new = named_host(
                d[k],
                if a.dom().contains(k) {
                    a[k].id->0
                } else {
                    ids(n)
                },
            );
            assert(next.contains(new));
            assert(first_domain(new) == Some(k));
            assert forall|x: Seq<char>|
                a.dom().contains(x) || now.contains(x) implies #[trigger] has_domain(next, x) by {
                if x != k {
                    assert(has_domain(hosts, x));
                    let r = choose|r: ProxyHostView| #[trigger]
                        hosts.contains(r) && first_domain(r) == Some(x);
                    assert(next.contains(r));
                }
            }
            assert(upserted(next, now, d, a));
        },
        None => {},
    }
}

proof fn lemma_delete_step(
    hosts: Set<ProxyHostView>,
    gone: Seq<Seq<char>>,
    k: Seq<char>,
    d: Map<Seq<char>, ProxyHostView>,
    a: Map<Seq<char>, ProxyHostView>,
    id: Seq<char>,
)
    requires
        pruned(hosts, gone, d, a),
        !gone.contains(k),
        a.dom().contains(k),
    ensures
        match diff::host_delete(k, d, a) {
            Some(change) => pruned(host_applied(hosts, change, id), gone.push(k), d, a),
            None => pruned(hosts, gone.push(k), d, a),
        },
{
    let now = gone.push(k);
    assert forall|x: Seq<char>| now.contains(x) <==> gone.contains(x) || x
        == k by {
        if gone.contains(x) {
            let i = choose|i: int| 0 <= i < gone.len() && gone[i] == x;
            assert(now[i] == x);
        }
        assert(now[gone.len() as int] == k);
    }
    if !d.dom().contains(k) {
        assert(has_domain(hosts, k));
        let held = choose|r: ProxyHostView| #[trigger]
            hosts.contains(r) && first_domain(r) == Some(k);
        assert(held == a[k]);
        let change = diff::host_delete(k, d, a)->0;
        let next = host_applied(hosts, change, id);
        assert forall|x: Seq<char>|
            d.dom().contains(x) || (a.dom().contains(x) && !now.contains(x)) implies
            #[trigger] has_domain(next, x) by {
            assert(has_domain(hosts, x));
            let r = choose|r: ProxyHostView| #[trigger]
                hosts.contains(r) && first_domain(r) == Some(x);
            assert(next.contains(r));
        }
    }
}

/// After the changes have been applied to the hosts, the proxy holds one host for
/// each desired first domain, which is as desired, and no other that has a
/// domain. Nothing is left to change, in whatever order the proxy lists the
/// hosts. The hosts at the start have ids, and no two of them share an id or a
/// first domain.
pub proof fn law_proxy_changes_converge(
    desired: Seq<ProxyHostView>,
    actual: Seq<ProxyHostView>,
    ids: spec_fn(int) -> Seq<char>,
    listed: Seq<ProxyHostView>,
)
    requires
        sound_hosts(actual.to_set()),
        fresh_host_ids(actual.to_set(), ids),
        listed.to_set() == hosts_applied(
            actual.to_set(),
            diff::proxy_diff(desired, actual),
            ids,
        ),
    ensures
        sound_hosts(listed.to_set()),
        hosts_in_sync(desired, listed),
        forall|i: int|
            0 <= i < listed.len() && first_domain(#[trigger] listed[i]) is Some
                ==> is_desired_host(desired, listed[i]),
        diff::proxy_diff(desired, listed) == Seq::<ProxyChangeView>::empty(),
{
    let d = diff::hosts_by_domain(desired);
    let a = diff::hosts_by_domain(actual);
    lemma_by_domain(desired);
    lemma_by_domain(actual);
    lemma_by_domain(listed);
    order::law_ascending_lists::<String>(d.dom());
    order::law_ascending_lists::<String>(a.dom());
    let dnames = order::ascending::<String>(d.dom());
    let anames = order::ascending::<String>(a.dom());
    let upserts = dnames.map_values(
        |k: Seq<char>| diff::host_upsert(k, d, a),
    );
    let deletes = anames.map_values(
        |k: Seq<char>| diff::host_delete(k, d, a),
    );
    let start = actual.to_set();
    assert forall|r: ProxyHostView| #[trigger]
        start.contains(r) && first_domain(r) is Some implies a.dom().contains(r.domains[0]) && r
        == a[r.domains[0]] by {
        let i = choose|i: int| 0 <= i < actual.len() && actual[i] == r;
        assert(a.dom().contains(first_domain(actual[i])->0));
        assert(start.contains(a[r.domains[0]]));
    }
    assert forall|k: Seq<char>| a.dom().contains(k) implies #[trigger] has_domain(
        start,
        k,
    ) by {
        assert(start.contains(a[k]));
    }
    assert forall|j: int| 0 <= j < dnames.len() implies first_domain(
        d[#[trigger] dnames[j]],
    ) == Some(dnames[j]) by {
        assert(dnames.contains(dnames[j]));
    }
    assert forall|j: int| 0 <= j < anames.len() implies a.dom().contains(#[trigger] anames[j]) by {
        assert(anames.contains(anames[j]));
    }
    assert(upserted(start, dnames.take(0), d, a));
    lemma_upserts(start, dnames, d, a, ids, dnames.len() as int);
    assert(dnames.take(dnames.len() as int) =~= dnames);
    assert(upserts.take(dnames.len() as int) =~= upserts);
    let middle = hosts_applied(start, diff::somes(upserts), ids);
    assert(pruned(middle, anames.take(0), d, a)) by {
        assert forall|k: Seq<char>|
            d.dom().contains(k) || a.dom().contains(k) implies #[trigger] has_domain(middle, k) by {
            if d.dom().contains(k) {
                assert(dnames.contains(k));
            }
        }
        assert forall|r: ProxyHostView| #[trigger] middle.contains(r) implies dnames.contains(
            r.domains[0],
        ) == d.dom().contains(r.domains[0]) by {}
    }
    lemma_deletes(start, diff::somes(upserts), anames, d, a, ids, anames.len() as int);
    assert(anames.take(anames.len() as int) =~= anames);
    assert(deletes.take(anames.len() as int) =~= deletes);
    let end = listed.to_set();
    assert(pruned(end, anames, d, a));
    let l = diff::hosts_by_domain(listed);
    assert forall|k: Seq<char>| #[trigger] d.dom().contains(k) implies l.dom().contains(
        k,
    ) by {
        assert(has_domain(end, k));
        let r = choose|r: ProxyHostView| #[trigger]
            end.contains(r) && first_domain(r) == Some(k);
        let i = choose|i: int| 0 <= i < listed.len() && listed[i] == r;
        assert(l.dom().contains(first_domain(listed[i])->0));
    }
    assert forall|k: Seq<char>| #[trigger] l.dom().contains(k) implies d.dom().contains(
        k,
    ) && diff::same_host(d[k], l[k]) by {
        assert(end.contains(l[k]));
        if !d.dom().contains(k) {
            assert(a.dom().contains(k));
            assert(anames.contains(k));
        }
    }
    assert(l.dom() =~= d.dom());
    assert forall|i: int|
        0 <= i < listed.len() && first_domain(#[trigger] listed[i]) is Some implies is_desired_host(
        desired,
        listed[i],
    ) by {
        assert(end.contains(listed[i]));
        assert(l.dom().contains(first_domain(listed[i])->0));
    }
    law_hosts_in_sync_need_no_change(desired, listed);
}

proof fn lemma_upserts(
    start: Set<ProxyHostView>,
    names: Seq<Seq<char>>,
    d: Map<Seq<char>, ProxyHostView>,
    a: Map<Seq<char>, ProxyHostView>,
    ids: spec_fn(int) -> Seq<char>,
    i: int,
)
    requires
        0 <= i <= names.len(),
        order::is_ascending::<String>(names),
        forall|j: int| 0 <= j < names.len() ==> first_domain(d[#[trigger] names[j]])
            == Some(names[j]),
        fresh_host_ids(start, ids),
        upserted(start, names.take(0), d, a),
    ensures
        ({
            let steps = names.map_values(
                |k: Seq<char>| diff::host_upsert(k, d, a),
            );
            let hosts = hosts_applied(start, diff::somes(steps.take(i)), ids);
            upserted(hosts, names.take(i), d, a) && ids_left(
                hosts,
                ids,
                diff::somes(steps.take(i)).len() as int,
            )
        }),
    decreases i,
{
    let steps = names.map_values(|k: Seq<char>| diff::host_upsert(k, d, a));
    if i == 0 {
        assert(steps.take(0) =~= Seq::<Option<ProxyChangeView>>::empty());
    } else {
        let k = names[i - 1];
        let done = names.take(i - 1);
        lemma_upserts(start, names, d, a, ids, i - 1);
        let changes = diff::somes(steps.take(i - 1));
        let hosts = hosts_applied(start, changes, ids);
        if done.contains(k) {
            let j = choose|j: int| 0 <= j < done.len() && done[j] == k;
            assert(<String as order::MapKey>::before(names[j], names[i - 1]));
            <String as order::MapKey>::order_is_total(k, k, k);
        }
        lemma_upsert_step(hosts, done, k, d, a, ids, changes.len() as int);
        assert(done.push(k) =~= names.take(i));
        assert(steps.take(i).drop_last() =~= steps.take(i - 1));
        assert(steps[i - 1] == diff::host_upsert(k, d, a));
        if steps[i - 1] is Some {
            assert(changes.push(steps[i - 1]->0).drop_last() =~= changes);
        }
    }
}

proof fn lemma_deletes(
    start: Set<ProxyHostView>,
    before: Seq<ProxyChangeView>,
    names: Seq<Seq<char>>,
    d: Map<Seq<char>, ProxyHostView>,
    a: Map<Seq<char>, ProxyHostView>,
    ids: spec_fn(int) -> Seq<char>,
    i: int,
)
    requires
        0 <= i <= names.len(),
        order::is_ascending::<String>(names),
        forall|j: int| 0 <= j < names.len() ==> a.dom().contains(#[trigger] names[j]),
        pruned(hosts_applied(start, before, ids), names.take(0), d, a),
    ensures
        ({
            let steps = names.map_values(
                |k: Seq<char>| diff::host_delete(k, d, a),
            );
            pruned(
                hosts_applied(start, before + diff::somes(steps.take(i)), ids),
                names.take(i),
                d,
                a,
            )
        }),
    decreases i,
{
    let steps = names.map_values(|k: Seq<char>| diff::host_delete(k, d, a));
    if i == 0 {
        assert(steps.take(0) =~= Seq::<Option<ProxyChangeView>>::empty());
        assert(before + diff::somes(steps.take(0)) =~= before);
    } else {
        let k = names[i - 1];
        let gone = names.take(i - 1);
        lemma_deletes(start, before, names, d, a, ids, i - 1);
        let changes = before + diff::somes(steps.take(i - 1));
        let hosts = hosts_applied(start, changes, ids);
        if gone.contains(k) {
            let j = choose|j: int| 0 <= j < gone.len() && gone[j] == k;
            assert(<String as order::MapKey>::before(names[j], names[i - 1]));
            <String as order::MapKey>::order_is_total(k, k, k);
        }
        lemma_delete_step(hosts, gone, k, d, a, ids(changes.len() as int));
        assert(gone.push(k) =~= names.take(i));
        assert(steps.take(i).drop_last() =~= steps.take(i - 1));
        assert(steps[i - 1] == diff::host_delete(k, d, a));
        if steps[i - 1] is Some {
            let change = steps[i - 1]->0;
            assert(before + diff::somes(steps.take(i)) =~= changes.push(change));
            assert(changes.push(change).drop_last() =~= changes);
        }
    }
}

/// Whether a host of the list has the id and the first domain.
pub open spec fn listed_under(
    hosts: Seq<ProxyHostView>,
    id: Seq<char>,
    domain: Seq<char>,
) -> bool {
    exists|i: int|
        0 <= i < hosts.len() && (#[trigger] hosts[i]).id == Some(id) && first_domain(hosts[i])
            == Some(domain)
}

/// Every change creates a desired host, updates to a desired host the host of
/// that first domain, or deletes a host of a first domain that nobody desires.
/// No other host is touched.
pub proof fn law_proxy_changes_touch_listed_hosts_only(
    desired: Seq<ProxyHostView>,
    actual: Seq<ProxyHostView>,
    i: int,
)
    requires
        0 <= i < diff::proxy_diff(desired, actual).len(),
    ensures
        match diff::proxy_diff(desired, actual)[i] {
            ProxyChangeView::Create(host) => desired.contains(host) && first_domain(host) is Some
                && !diff::hosts_by_domain(actual).dom().contains(host.domains[0]),
            ProxyChangeView::Update { id, host } => desired.contains(host) && first_domain(host)
                is Some && listed_under(actual, id, host.domains[0]),
            ProxyChangeView::Delete { id } => exists|k: Seq<char>| #[trigger]
                listed_under(actual, id, k) && !diff::hosts_by_domain(desired).dom().contains(k),
        },
{
    let d = diff::hosts_by_domain(desired);
    let a = diff::hosts_by_domain(actual);
    lemma_by_domain(desired);
    lemma_by_domain(actual);
    order::law_ascending_lists::<String>(d.dom());
    order::law_ascending_lists::<String>(a.dom());
    let dnames = order::ascending::<String>(d.dom());
    let anames = order::ascending::<String>(a.dom());
    let upserts = dnames.map_values(|k: Seq<char>| diff::host_upsert(k, d, a));
    let deletes = anames.map_values(|k: Seq<char>| diff::host_delete(k, d, a));
    let change = diff::proxy_diff(desired, actual)[i];
    assert(diff::proxy_diff(desired, actual) == diff::somes(upserts) + diff::somes(deletes));
    let n = diff::somes(upserts).len();
    if i < n {
        diff::lemma_some_is_listed(upserts, i);
        let j = choose|j: int| 0 <= j < upserts.len() && upserts[j] == Some(change);
        assert(dnames.contains(dnames[j]));
        assert(upserts[j] == diff::host_upsert(dnames[j], d, a));
        lemma_listed_under(actual, dnames[j]);
        assert(d.dom().contains(dnames[j]));
    } else {
        diff::lemma_some_is_listed(deletes, i - n);
        let j = choose|j: int| 0 <= j < deletes.len() && deletes[j] == Some(change);
        assert(anames.contains(anames[j]));
        assert(deletes[j] == diff::host_delete(anames[j], d, a));
        lemma_listed_under(actual, anames[j]);
        assert(listed_under(actual, change->Delete_id, anames[j]));
    }
}

proof fn lemma_listed_under(hosts: Seq<ProxyHostView>, k: Seq<char>)
    ensures
        diff::hosts_by_domain(hosts).dom().contains(k) && diff::hosts_by_domain(hosts)[k].id
            is Some ==> listed_under(hosts, diff::hosts_by_domain(hosts)[k].id->0, k),
{
    lemma_by_domain(hosts);
    if diff::hosts_by_domain(hosts).dom().contains(k) {
        let r = diff::hosts_by_domain(hosts)[k];
        let i = choose|i: int| 0 <= i < hosts.len() && hosts[i] == r;
        assert(hosts[i].id == r.id);
    }
}

proof fn lemma_last_host_counts(hosts: Seq<ProxyHostView>, i: int)
    requires
        0 <= i < hosts.len(),
        first_domain(hosts[i]) is Some,
        forall|j: int|
            i < j < hosts.len() ==> first_domain(#[trigger] hosts[j]) != first_domain(hosts[i]),
    ensures
        diff::hosts_by_domain(hosts).dom().contains(hosts[i].domains[0]),
        diff::hosts_by_domain(hosts)[hosts[i].domains[0]] == hosts[i],
    decreases hosts.len(),
{
    if i < hosts.len() - 1 {
        let before = hosts.drop_last();
        assert(hosts[hosts.len() - 1] == hosts.last());
        assert forall|j: int| i < j < before.len() implies first_domain(#[trigger] before[j])
            != first_domain(before[i]) by {
            assert(before[j] == hosts[j]);
        }
        lemma_last_host_counts(before, i);
    }
}

/// After the changes have been applied, every host of the proxy that has a domain
/// equals a desired one in its domains, its upstream (scheme, host and port), its
/// websocket support, its certificate and its redirection to HTTPS.
pub proof fn law_applied_host_equals_a_desired_one(
    desired: Seq<ProxyHostView>,
    actual: Seq<ProxyHostView>,
    ids: spec_fn(int) -> Seq<char>,
    listed: Seq<ProxyHostView>,
    j: int,
)
    requires
        sound_hosts(actual.to_set()),
        fresh_host_ids(actual.to_set(), ids),
        listed.to_set() == hosts_applied(
            actual.to_set(),
            diff::proxy_diff(desired, actual),
            ids,
        ),
        0 <= j < listed.len(),
        listed[j].domains.len() > 0,
    ensures
        exists|i: int|
            0 <= i < desired.len() && equal_but_for_the_id(#[trigger] desired[i], listed[j]),
{
    law_proxy_changes_converge(desired, actual, ids, listed);
    lemma_by_domain(desired);
    assert(first_domain(listed[j]) is Some);
    assert(is_desired_host(desired, listed[j]));
    let r = diff::hosts_by_domain(desired)[listed[j].domains[0]];
    let i = choose|i: int| 0 <= i < desired.len() && desired[i] == r;
    diff::law_same_host_is_equal_but_for_the_id(desired[i], listed[j]);
    assert(equal_but_for_the_id(desired[i], listed[j]));
}

/// After the changes have been applied, every desired host with a domain has its
/// equal in the proxy, in everything but the id, unless a later desired host has
/// its first domain.
pub proof fn law_desired_host_has_its_equal(
    desired: Seq<ProxyHostView>,
    actual: Seq<ProxyHostView>,
    ids: spec_fn(int) -> Seq<char>,
    listed: Seq<ProxyHostView>,
    i: int,
)
    requires
        sound_hosts(actual.to_set()),
        fresh_host_ids(actual.to_set(), ids),
        listed.to_set() == hosts_applied(
            actual.to_set(),
            diff::proxy_diff(desired, actual),
            ids,
        ),
        0 <= i < desired.len(),
        desired[i].domains.len() > 0,
        forall|k: int|
            i < k < desired.len() && (#[trigger] desired[k]).domains.len() > 0
                ==> desired[k].domains[0] != desired[i].domains[0],
    ensures
        exists|j: int|
            0 <= j < listed.len() && equal_but_for_the_id(desired[i], #[trigger] listed[j]),
{
    law_proxy_changes_converge(desired, actual, ids, listed);
    lemma_by_domain(listed);
    lemma_last_host_counts(desired, i);
    let domain = desired[i].domains[0];
    let l = diff::hosts_by_domain(listed);
    assert(diff::hosts_by_domain(desired).dom().contains(domain));
    assert(l.dom().contains(domain));
    let j = choose|j: int| 0 <= j < listed.len() && listed[j] == l[domain];
    diff::law_same_host_is_equal_but_for_the_id(desired[i], listed[j]);
    assert(equal_but_for_the_id(desired[i], listed[j]));
}

/// Whether two hosts are equal in everything but the id.
pub open spec fn equal_but_for_the_id(a: ProxyHostView, b: ProxyHostView) -> bool {
    ProxyHostView { id: None, ..a } == (ProxyHostView { id: None, ..b })
}

} // verus!
