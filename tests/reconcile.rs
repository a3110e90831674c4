use edge_workers::app::App;
use edge_workers::loader::{fetch_plan, reconcile, AppOrigin, PlannedApp, TenantRecord};
use edge_workers::session::Session;

fn tenant(id: i32, name: &str, key: Option<&str>) -> TenantRecord {
    TenantRecord { id, name: name.to_string(), latest_deployment: key.map(|k| k.to_string()) }
}

fn app(id: i32, name: &str, key: &str) -> App {
    App::new(
        Session::new(id),
        name.to_string(),
        format!("/tmp/w/{}", id),
        "main.js".to_string(),
        key.to_string(),
    )
}

fn describe(r: &[PlannedApp], existing: &[App]) -> Vec<(usize, String, String, bool)> {
    r.iter()
        .map(|p| match &p.origin {
            AppOrigin::Existing(a) => {
                (p.tenant, existing[*a].name.clone(), existing[*a].deployment.clone(), true)
            }
            AppOrigin::Fresh(app) => (p.tenant, app.name.clone(), app.deployment.clone(), false),
        })
        .collect()
}

#[test]
fn first_cycle_builds_one_app_per_deployed_tenant() {
    let tenants = vec![
        tenant(1, "alpha", Some("k2")),
        tenant(2, "beta", None),
        tenant(3, "gamma", Some("k1")),
    ];
    let existing: Vec<App> = vec![];
    assert_eq!(fetch_plan(&tenants, &existing), vec![true, false, true]);
    let r = reconcile(&tenants, &existing, &vec![true, false, true], "/tmp/w");
    assert_eq!(
        describe(&r, &existing),
        vec![
            (2, "gamma".to_string(), "k1".to_string(), false),
            (0, "alpha".to_string(), "k2".to_string(), false),
        ]
    );
    match &r[1].origin {
        AppOrigin::Fresh(a) => {
            assert_eq!(a.path, "/tmp/w/1");
            assert_eq!(a.script_file_name, "main.js");
            assert_eq!(a.session.user_id, 1);
        }
        AppOrigin::Existing(_) => panic!("expected a fresh app"),
    }
}

#[test]
fn unchanged_deployment_keeps_existing_app() {
    let tenants = vec![tenant(1, "alpha", Some("k1")), tenant(2, "beta", Some("k9"))];
    let existing = vec![app(2, "beta", "k0"), app(1, "alpha", "k1")];
    assert_eq!(fetch_plan(&tenants, &existing), vec![false, true]);
    let r = reconcile(&tenants, &existing, &vec![false, true], "/tmp/w");
    assert_eq!(
        describe(&r, &existing),
        vec![
            (0, "alpha".to_string(), "k1".to_string(), true),
            (1, "beta".to_string(), "k9".to_string(), false),
        ]
    );
    assert!(matches!(r[0].origin, AppOrigin::Existing(1)));
}

#[test]
fn removed_deployment_drops_only_that_app() {
    let tenants = vec![tenant(1, "alpha", None), tenant(2, "beta", Some("kb"))];
    let existing = vec![app(1, "alpha", "ka"), app(2, "beta", "kb")];
    let r = reconcile(&tenants, &existing, &vec![false, false], "/tmp/w");
    assert_eq!(describe(&r, &existing), vec![(1, "beta".to_string(), "kb".to_string(), true)]);
}

#[test]
fn failed_unpack_omits_tenant_for_this_cycle() {
    let tenants = vec![tenant(1, "alpha", Some("new")), tenant(2, "beta", Some("kb"))];
    let existing = vec![app(1, "alpha", "old"), app(2, "beta", "kb")];
    assert_eq!(fetch_plan(&tenants, &existing), vec![true, false]);
    let r = reconcile(&tenants, &existing, &vec![false, false], "/tmp/w");
    assert_eq!(describe(&r, &existing), vec![(1, "beta".to_string(), "kb".to_string(), true)]);
}

#[test]
fn new_list_is_sorted_by_deployment_key() {
    let tenants = vec![
        tenant(1, "a", Some("zeta")),
        tenant(2, "b", Some("alpha")),
        tenant(3, "c", Some("mid")),
        tenant(4, "d", Some("alpha2")),
    ];
    let r = reconcile(&tenants, &vec![], &vec![true, true, true, true], "/r");
    let keys: Vec<String> = describe(&r, &[]).into_iter().map(|d| d.2).collect();
    assert_eq!(keys, vec!["alpha", "alpha2", "mid", "zeta"]);
}

#[test]
fn hot_reload_replaces_app_on_key_change() {
    let tenants = vec![tenant(5, "alpha", Some("v2"))];
    let existing = vec![app(5, "alpha", "v1")];
    assert_eq!(fetch_plan(&tenants, &existing), vec![true]);
    let r = reconcile(&tenants, &existing, &vec![true], "/tmp/w");
    assert_eq!(describe(&r, &existing), vec![(0, "alpha".to_string(), "v2".to_string(), false)]);
}
