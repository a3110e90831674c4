use vstd::prelude::*;

use crate::app::{unpack_dir, unpack_dir_of, App};
use crate::session::Session;
use crate::text::{lemma_lex_total, lemma_lex_trans, lex_le, same_text, text_le};

verus! {

/// What the loader reads of a tenant.
pub struct TenantRecord {
    pub id: i32,
    pub name: String,
    /// The storage key of the current deployment archive, if any.
    pub latest_deployment: Option<String>,
}

/// Where an app of the new list comes from.
pub enum AppOrigin {
    /// The app at this index of the old list, kept as it is.
    Existing(usize),
    /// A new app over a freshly unpacked deployment.
    Fresh(App),
}

/// One app of the new list, with the index of the tenant it serves.
pub struct PlannedApp {
    pub tenant: usize,
    pub origin: AppOrigin,
}

/// The name of the entry script of every deployment.
pub open spec fn entry_script_name() -> Seq<char> {
    seq!['m', 'a', 'i', 'n', '.', 'j', 's']
}

/// `app` serves tenant `t` at its current deployment.
pub open spec fn app_matches(app: App, t: TenantRecord) -> bool {
    &&& t.latest_deployment is Some
    &&& app.name@ == t.name@
    &&& app.deployment@ == t.latest_deployment->0@
}

/// The old list holds an app for tenant `t` at its current deployment.
pub open spec fn has_match(existing: Seq<App>, t: TenantRecord) -> bool {
    exists|a: int| 0 <= a < existing.len() && app_matches(#[trigger] existing[a], t)
}

/// The first app of the old list that serves `t` at its deployment.
pub open spec fn first_match(existing: Seq<App>, t: TenantRecord, a: int) -> bool {
    &&& 0 <= a < existing.len()
    &&& app_matches(existing[a], t)
    &&& forall|b: int| 0 <= b < a ==> !app_matches(#[trigger] existing[b], t)
}

/// Tenant `t` has a deployment, and no app of the old list serves it: its
/// archive has to be fetched and unpacked.
pub open spec fn fetch_needed(existing: Seq<App>, t: TenantRecord) -> bool {
    t.latest_deployment is Some && !has_match(existing, t)
}

/// Tenant `i` gets an app in the new list: its app is kept, or its archive
/// was unpacked.
pub open spec fn included(
    tenants: Seq<TenantRecord>,
    existing: Seq<App>,
    unpacked: Seq<bool>,
    i: int,
) -> bool {
    &&& tenants[i].latest_deployment is Some
    &&& (has_match(existing, tenants[i]) || unpacked[i])
}

/// The app that `p` stands for, for tenant `t`: the first matching old app
/// where there is one, else a new app over the tenant's unpack directory.
pub open spec fn origin_valid(p: PlannedApp, t: TenantRecord, existing: Seq<App>, root: Seq<char>) -> bool {
    match p.origin {
        AppOrigin::Existing(a) => first_match(existing, t, a as int),
        AppOrigin::Fresh(app) => {
            &&& !has_match(existing, t)
            &&& app_matches(app, t)
            &&& app.session.user_id == t.id
            &&& app.path@ == unpack_dir_of(root, t.id)
            &&& app.script_file_name@ == entry_script_name()
        },
    }
}

/// The deployment key of a planned app.
pub open spec fn planned_key(p: PlannedApp, existing: Seq<App>) -> Seq<char> {
    match p.origin {
        AppOrigin::Existing(a) => existing[a as int].deployment@,
        AppOrigin::Fresh(app) => app.deployment@,
    }
}

/// The name of a planned app.
pub open spec fn planned_name(p: PlannedApp, existing: Seq<App>) -> Seq<char> {
    match p.origin {
        AppOrigin::Existing(a) => existing[a as int].name@,
        AppOrigin::Fresh(app) => app.name@,
    }
}

/// `r` is the new app list of one reconciliation: one app for each included
/// tenant and no other, each kept or built as `origin_valid` says, in order
/// of deployment key.
pub open spec fn reconciled(
    tenants: Seq<TenantRecord>,
    existing: Seq<App>,
    unpacked: Seq<bool>,
    root: Seq<char>,
    r: Seq<PlannedApp>,
) -> bool {
    &&& forall|i: int|
        0 <= i < r.len() ==> {
            let t = (#[trigger] r[i]).tenant as int;
            &&& 0 <= t < tenants.len()
            &&& included(tenants, existing, unpacked, t)
            &&& origin_valid(r[i], tenants[t], existing, root)
        }
    &&& forall|i: int, j: int|
        0 <= i < r.len() && 0 <= j < r.len() && (#[trigger] r[i]).tenant == (#[trigger] r[j]).tenant
            ==> i == j
    &&& forall|t: int|
        0 <= t < tenants.len() && included(tenants, existing, unpacked, t) ==> exists|i: int|
            0 <= i < r.len() && (#[trigger] r[i]).tenant == t
    &&& forall|i: int, j: int|
        0 <= i < j < r.len() ==> lex_le(
            planned_key(#[trigger] r[i], existing),
            planned_key(#[trigger] r[j], existing),
        )
}

/// The index of the first app of `existing` serving `t` at its deployment.
pub fn find_existing(existing: &Vec<App>, t: &TenantRecord) -> (r: Option<usize>)
    ensures
        match r {
            Some(a) => first_match(existing@, *t, a as int),
            None => !has_match(existing@, *t),
        },
{
    let key = match &t.latest_deployment {
        Some(k) => k,
        None => return None,
    };
    let mut a: usize = 0;
    while a < existing.len()
        invariant
            a <= existing@.len(),
            t.latest_deployment is Some,
            t.latest_deployment->0@ == key@,
            forall|b: int| 0 <= b < a ==> !app_matches(#[trigger] existing@[b], *t),
        decreases existing@.len() - a,
    {
        let app = &existing[a];
        if same_text(app.deployment.as_str(), key.as_str()) && same_text(
            app.name.as_str(),
            t.name.as_str(),
        ) {
            return Some(a);
        }
        a += 1;
    }
    None
}

/// For each tenant, whether its archive has to be fetched and unpacked.
pub fn fetch_plan(tenants: &Vec<TenantRecord>, existing: &Vec<App>) -> (r: Vec<bool>)
    ensures
        r@.len() == tenants@.len(),
        forall|i: int| 0 <= i < r@.len() ==> r@[i] == fetch_needed(existing@, #[trigger] tenants@[i]),
{
    let mut r: Vec<bool> = Vec::new();
    let mut i: usize = 0;
    while i < tenants.len()
        invariant
            i <= tenants@.len(),
            r@.len() == i,
            forall|j: int| 0 <= j < i ==> r@[j] == fetch_needed(existing@, #[trigger] tenants@[j]),
        decreases tenants@.len() - i,
    {
        let t = &tenants[i];
        let need = t.latest_deployment.is_some() && find_existing(existing, t).is_none();
        r.push(need);
        i += 1;
    }
    r
}

fn key_of<'a>(p: &'a PlannedApp, existing: &'a Vec<App>) -> (k: &'a String)
    requires
        match p.origin {
            AppOrigin::Existing(a) => a < existing@.len(),
            AppOrigin::Fresh(_) => true,
        },
    ensures
        k@ == planned_key(*p, existing@),
{
    match &p.origin {
        AppOrigin::Existing(a) => &existing[*a].deployment,
        AppOrigin::Fresh(app) => &app.deployment,
    }
}

/// Builds the new app list of one reconciliation from the tenants, the old
/// list, and for each tenant whether its archive was unpacked under `root`.
pub fn reconcile(
    tenants: &Vec<TenantRecord>,
    existing: &Vec<App>,
    unpacked: &Vec<bool>,
    root: &str,
) -> (r: Vec<PlannedApp>)
    requires
        unpacked@.len() == tenants@.len(),
    ensures
        reconciled(tenants@, existing@, unpacked@, root@, r@),
{
    let mut r: Vec<PlannedApp> = Vec::new();
    let mut i: usize = 0;
    while i < tenants.len()
        invariant
            i <= tenants@.len(),
            unpacked@.len() == tenants@.len(),
            forall|x: int|
                0 <= x < r@.len() ==> {
                    let t = (#[trigger] r@[x]).tenant as int;
                    &&& 0 <= t < i
                    &&& included(tenants@, existing@, unpacked@, t)
                    &&& origin_valid(r@[x], tenants@[t], existing@, root@)
                },
            forall|x: int, y: int|
                0 <= x < r@.len() && 0 <= y < r@.len() && (#[trigger] r@[x]).tenant == (
                #[trigger] r@[y]).tenant ==> x == y,
            forall|t: int|
                0 <= t < i && included(tenants@, existing@, unpacked@, t) ==> exists|x: int|
                    0 <= x < r@.len() && (#[trigger] r@[x]).tenant == t,
            forall|x: int, y: int|
                0 <= x < y < r@.len() ==> lex_le(
                    planned_key(#[trigger] r@[x], existing@),
                    planned_key(#[trigger] r@[y], existing@),
                ),
        decreases tenants@.len() - i,
    {
        let t = &tenants[i];
        let planned = match &t.latest_deployment {
            None => None,
            Some(key) => match find_existing(existing, t) {
                Some(a) => Some(PlannedApp { tenant: i, origin: AppOrigin::Existing(a) }),
                None => if unpacked[i] {
                    proof {
                        reveal_strlit("main.js");
                    }
                    let script = String::from_str("main.js");
                    assert(script@ =~= entry_script_name());
                    let app = App::new(
                        Session::new(t.id),
                        t.name.clone(),
                        unpack_dir(root, t.id),
                        script,
                        key.clone(),
                    );
                    Some(PlannedApp { tenant: i, origin: AppOrigin::Fresh(app) })
                } else {
                    None
                },
            },
        };
        match planned {
            None => {},
            Some(p) => {
                let ghost old_r = r@;
                let mut pos: usize = 0;
                while pos < r.len()
                    invariant
                        r@ == old_r,
                        pos <= r@.len(),
                        match p.origin {
                            AppOrigin::Existing(a) => a < existing@.len(),
                            AppOrigin::Fresh(_) => true,
                        },
                        forall|x: int|
                            0 <= x < r@.len() ==> match (#[trigger] r@[x]).origin {
                                AppOrigin::Existing(a) => a < existing@.len(),
                                AppOrigin::Fresh(_) => true,
                            },
                        forall|x: int|
                            0 <= x < pos ==> lex_le(
                                planned_key(#[trigger] r@[x], existing@),
                                planned_key(p, existing@),
                            ),
                    ensures
                        r@ == old_r,
                        pos <= r@.len(),
                        forall|x: int|
                            0 <= x < pos ==> lex_le(
                                planned_key(#[trigger] r@[x], existing@),
                                planned_key(p, existing@),
                            ),
                        pos < r@.len() ==> !lex_le(
                            planned_key(r@[pos as int], existing@),
                            planned_key(p, existing@),
                        ),
                    decreases r@.len() - pos,
                {
                    if !text_le(key_of(&r[pos], existing).as_str(), key_of(&p, existing).as_str()) {
                        break;
                    }
                    pos += 1;
                }
                let ghost kp = planned_key(p, existing@);
                proof {
                    if pos < old_r.len() {
                        lemma_lex_total(planned_key(old_r[pos as int], existing@), kp);
                        assert forall|y: int| pos <= y < old_r.len() implies lex_le(
                            kp,
                            planned_key(#[trigger] old_r[y], existing@),
                        ) by {
                            if y > pos {
                                lemma_lex_trans(
                                    kp,
                                    planned_key(old_r[pos as int], existing@),
                                    planned_key(old_r[y], existing@),
                                );
                            }
                        }
                    }
                }
                r.insert(pos, p);
                proof {
                    let nr = r@;
                    assert(forall|x: int|
                        0 <= x < nr.len() ==> #[trigger] nr[x] == if x < pos {
                            old_r[x]
                        } else if x == pos {
                            p
                        } else {
                            old_r[x - 1]
                        });
                    assert forall|t2: int|
                        0 <= t2 <= i && included(tenants@, existing@, unpacked@, t2) implies exists|
                        x: int,
                    | 0 <= x < nr.len() && (#[trigger] nr[x]).tenant == t2 by {
                        if t2 == i {
                            assert(nr[pos as int].tenant == t2);
                        } else {
                            let x = choose|x: int| 0 <= x < old_r.len() && (#[trigger] old_r[x]).tenant == t2;
                            if x < pos {
                                assert(nr[x].tenant == t2);
                            } else {
                                assert(nr[x + 1].tenant == t2);
                            }
                        }
                    }
                    assert forall|x: int, y: int|
                        0 <= x < nr.len() && 0 <= y < nr.len() && (#[trigger] nr[x]).tenant == (
                        #[trigger] nr[y]).tenant implies x == y by {
                        let x2 = if x < pos { x } else { x - 1 };
                        let y2 = if y < pos { y } else { y - 1 };
                        if x != pos && y != pos {
                            assert(old_r[x2].tenant == old_r[y2].tenant);
                        }
                    }
                    assert forall|x: int, y: int| 0 <= x < y < nr.len() implies lex_le(
                        planned_key(#[trigger] nr[x], existing@),
                        planned_key(#[trigger] nr[y], existing@),
                    ) by {
                        if x < pos && y == pos {
                        } else if x == pos {
                            assert(nr[y] == old_r[y - 1]);
                        } else if y < pos {
                        } else if x < pos {
                            assert(lex_le(planned_key(old_r[x], existing@), kp));
                            assert(lex_le(kp, planned_key(old_r[y - 1], existing@)));
                            lemma_lex_trans(
                                planned_key(old_r[x], existing@),
                                kp,
                                planned_key(old_r[y - 1], existing@),
                            );
                        } else {
                            assert(nr[x] == old_r[x - 1]);
                            assert(nr[y] == old_r[y - 1]);
                        }
                    }
                }
            },
        }
        i += 1;
    }
    r
}

/// No two tenants share a name.
pub open spec fn names_unique(tenants: Seq<TenantRecord>) -> bool {
    forall|i: int, j: int|
        0 <= i < tenants.len() && 0 <= j < tenants.len() && (#[trigger] tenants[i]).name@ == (
        #[trigger] tenants[j]).name@ ==> i == j
}

proof fn lemma_planned_serves_tenant(
    tenants: Seq<TenantRecord>,
    existing: Seq<App>,
    unpacked: Seq<bool>,
    root: Seq<char>,
    r: Seq<PlannedApp>,
    i: int,
)
    requires
        reconciled(tenants, existing, unpacked, root, r),
        0 <= i < r.len(),
    ensures
        planned_name(r[i], existing) == tenants[r[i].tenant as int].name@,
        planned_key(r[i], existing) == tenants[r[i].tenant as int].latest_deployment->0@,
{
    let t = r[i].tenant as int;
    assert(origin_valid(r[i], tenants[t], existing, root));
}

/// After a reconciliation every tenant whose app was kept or whose archive
/// was unpacked has exactly one app with its name, at its current
/// deployment key.
pub proof fn lemma_one_app_per_tenant(
    tenants: Seq<TenantRecord>,
    existing: Seq<App>,
    unpacked: Seq<bool>,
    root: Seq<char>,
    r: Seq<PlannedApp>,
    t: int,
)
    requires
        reconciled(tenants, existing, unpacked, root, r),
        names_unique(tenants),
        0 <= t < tenants.len(),
        included(tenants, existing, unpacked, t),
    ensures
        exists|i: int|
            {
                &&& 0 <= i < r.len()
                &&& planned_name(r[i], existing) == tenants[t].name@
                &&& planned_key(r[i], existing) == tenants[t].latest_deployment->0@
                &&& forall|j: int|
                    0 <= j < r.len() && planned_name(#[trigger] r[j], existing) == tenants[t].name@
                        ==> j == i
            },
{
    let i = choose|i: int| 0 <= i < r.len() && (#[trigger] r[i]).tenant == t;
    lemma_planned_serves_tenant(tenants, existing, unpacked, root, r, i);
    assert forall|j: int|
        0 <= j < r.len() && planned_name(#[trigger] r[j], existing) == tenants[t].name@ implies j
        == i by {
        lemma_planned_serves_tenant(tenants, existing, unpacked, root, r, j);
        let tj = r[j].tenant as int;
        assert(tenants[tj].name@ == tenants[t].name@);
        assert(r[j].tenant == r[i].tenant);
    }
}

/// A tenant without a deployment has no app after a reconciliation, and
/// every tenant whose app still matches keeps that very app.
pub proof fn lemma_undeployed_tenant_dropped(
    tenants: Seq<TenantRecord>,
    existing: Seq<App>,
    unpacked: Seq<bool>,
    root: Seq<char>,
    r: Seq<PlannedApp>,
    t: int,
)
    requires
        reconciled(tenants, existing, unpacked, root, r),
        names_unique(tenants),
        0 <= t < tenants.len(),
        tenants[t].latest_deployment is None,
    ensures
        forall|i: int| 0 <= i < r.len() ==> planned_name(#[trigger] r[i], existing) != tenants[t].name@,
        forall|i: int|
            0 <= i < r.len() && has_match(existing, tenants[(#[trigger] r[i]).tenant as int]) ==> (
            r[i].origin is Existing && first_match(
                existing,
                tenants[r[i].tenant as int],
                r[i].origin->Existing_0 as int,
            )),
{
    assert forall|i: int| 0 <= i < r.len() implies planned_name(#[trigger] r[i], existing)
        != tenants[t].name@ by {
        lemma_planned_serves_tenant(tenants, existing, unpacked, root, r, i);
        let ti = r[i].tenant as int;
        assert(tenants[ti].latest_deployment is Some);
    }
    assert forall|i: int|
        0 <= i < r.len() && has_match(existing, tenants[(#[trigger] r[i]).tenant as int]) implies (
        r[i].origin is Existing && first_match(
            existing,
            tenants[r[i].tenant as int],
            r[i].origin->Existing_0 as int,
        )) by {
        let ti = r[i].tenant as int;
        assert(origin_valid(r[i], tenants[ti], existing, root));
    }
}

} // verus!
