use vstd::prelude::*;

use crate::session::Session;
use crate::text::same_text;

verus! {

/// A key-value scoping unit owned by a tenant.
#[derive(Clone, Debug)]
pub struct Namespace {
    pub id: i32,
    pub name: String,
    pub user_id: i32,
}

/// One stored key-value pair inside a namespace.
#[derive(Clone, Debug)]
pub struct Record {
    pub key: String,
    pub value: String,
    pub namespace_id: i32,
}

/// Why a key-value operation could not run.
#[derive(Clone, Copy, Debug, PartialEq, Eq, Structural)]
pub enum KvError {
    /// The tenant has no namespace named `default`: a provisioning fault.
    MissingNamespace,
}

/// The name of the namespace every key-value operation works in.
pub open spec fn default_name() -> Seq<char> {
    seq!['d', 'e', 'f', 'a', 'u', 'l', 't']
}

pub open spec fn is_default_of(n: Namespace, user_id: i32) -> bool {
    n.name@ == default_name() && n.user_id == user_id
}

/// The first namespace named `default` that belongs to `user_id`.
pub open spec fn default_namespace(nss: Seq<Namespace>, user_id: i32) -> Option<i32>
    decreases nss.len(),
{
    if nss.len() == 0 {
        None
    } else if is_default_of(nss[0], user_id) {
        Some(nss[0].id)
    } else {
        default_namespace(nss.drop_first(), user_id)
    }
}

pub open spec fn record_key(r: Record) -> (i32, Seq<char>) {
    (r.namespace_id, r.key@)
}

/// The table that a sequence of records denotes: each (namespace, key)
/// pair maps to its value.
pub open spec fn table_of(recs: Seq<Record>) -> Map<(i32, Seq<char>), Seq<char>>
    decreases recs.len(),
{
    if recs.len() == 0 {
        Map::empty()
    } else {
        table_of(recs.drop_last()).insert(record_key(recs.last()), recs.last().value@)
    }
}

/// No two records share a (namespace, key) pair.
pub open spec fn keys_unique(recs: Seq<Record>) -> bool {
    forall|i: int, j: int|
        0 <= i < recs.len() && 0 <= j < recs.len() && record_key(#[trigger] recs[i])
            == record_key(#[trigger] recs[j]) ==> i == j
}

/// The key-value pairs of one namespace.
pub open spec fn namespace_view(t: Map<(i32, Seq<char>), Seq<char>>, ns: i32) -> Map<
    Seq<char>,
    Seq<char>,
> {
    Map::new(|k: Seq<char>| t.contains_key((ns, k)), |k: Seq<char>| t[(ns, k)])
}

/// `m` read at `k`, absent as `None`.
pub open spec fn lookup(m: Map<Seq<char>, Seq<char>>, k: Seq<char>) -> Option<Seq<char>> {
    if m.contains_key(k) {
        Some(m[k])
    } else {
        None
    }
}

/// The characters of an optional string.
pub open spec fn opt_text(o: Option<String>) -> Option<Seq<char>> {
    match o {
        Some(s) => Some(s@),
        None => None,
    }
}

proof fn lemma_table_of(recs: Seq<Record>)
    ensures
        forall|p: (i32, Seq<char>)|
            table_of(recs).contains_key(p) <==> exists|i: int|
                0 <= i < recs.len() && record_key(#[trigger] recs[i]) == p,
        keys_unique(recs) ==> forall|i: int|
            0 <= i < recs.len() ==> table_of(recs)[record_key(#[trigger] recs[i])]
                == recs[i].value@,
    decreases recs.len(),
{
    if recs.len() > 0 {
        let pre = recs.drop_last();
        lemma_table_of(pre);
        assert(table_of(recs) == table_of(pre).insert(record_key(recs.last()), recs.last().value@));
        assert forall|p: (i32, Seq<char>)|
            table_of(recs).contains_key(p) <==> exists|i: int|
                0 <= i < recs.len() && record_key(#[trigger] recs[i]) == p by {
            if table_of(recs).contains_key(p) && p != record_key(recs.last()) {
                assert(table_of(pre).contains_key(p));
                let i = choose|i: int| 0 <= i < pre.len() && record_key(#[trigger] pre[i]) == p;
                assert(record_key(recs[i]) == p);
            }
            if exists|i: int| 0 <= i < recs.len() && record_key(#[trigger] recs[i]) == p {
                let i = choose|i: int| 0 <= i < recs.len() && record_key(#[trigger] recs[i]) == p;
                if i < recs.len() - 1 {
                    assert(record_key(pre[i]) == p);
                }
            }
        }
        if keys_unique(recs) {
            assert(keys_unique(pre)) by {
                assert forall|i: int, j: int|
                    0 <= i < pre.len() && 0 <= j < pre.len() && record_key(#[trigger] pre[i])
                        == record_key(#[trigger] pre[j]) implies i == j by {
                    assert(record_key(recs[i]) == record_key(recs[j]));
                }
            }
            assert forall|i: int| 0 <= i < recs.len() implies table_of(recs)[record_key(
                #[trigger] recs[i],
            )] == recs[i].value@ by {
                if i < recs.len() - 1 {
                    assert(pre[i] == recs[i]);
                    assert(record_key(recs[i]) != record_key(recs[recs.len() - 1]));
                }
            }
        }
    }
}

/// The rows of a key-value table together with the namespaces they live in.
pub struct KvStore {
    namespaces: Vec<Namespace>,
    records: Vec<Record>,
}

impl KvStore {
    /// Every (namespace, key) pair is held by at most one record.
    pub closed spec fn wf(&self) -> bool {
        keys_unique(self.records@)
    }

    pub closed spec fn table(&self) -> Map<(i32, Seq<char>), Seq<char>> {
        table_of(self.records@)
    }

    pub closed spec fn records(&self) -> Seq<Record> {
        self.records@
    }

    pub closed spec fn namespaces(&self) -> Seq<Namespace> {
        self.namespaces@
    }

    pub fn new() -> (s: KvStore)
        ensures
            s.wf(),
            s.table() == Map::<(i32, Seq<char>), Seq<char>>::empty(),
            s.namespaces() == Seq::<Namespace>::empty(),
    {
        KvStore { namespaces: Vec::new(), records: Vec::new() }
    }

    /// Registers a namespace, as the control plane does when it onboards a
    /// tenant.
    pub fn add_namespace(&mut self, ns: Namespace)
        ensures
            final(self).namespaces() == old(self).namespaces().push(ns),
            final(self).table() == old(self).table(),
            old(self).wf() ==> final(self).wf(),
    {
        self.namespaces.push(ns);
    }

    fn find_record(&self, ns: i32, key: &str) -> (r: Option<usize>)
        requires
            self.wf(),
        ensures
            match r {
                Some(i) => i < self.records@.len() && record_key(self.records@[i as int]) == (
                ns,
                key@,
                ),
                None => !self.table().contains_key((ns, key@)),
            },
    {
        proof {
            lemma_table_of(self.records@);
        }
        let mut i: usize = 0;
        while i < self.records.len()
            invariant
                i <= self.records@.len(),
                forall|j: int|
                    0 <= j < i ==> record_key(#[trigger] self.records@[j]) != (ns, key@),
            decreases self.records@.len() - i,
        {
            let r = &self.records[i];
            if r.namespace_id == ns && same_text(r.key.as_str(), key) {
                return Some(i);
            }
            i += 1;
        }
        None
    }
}

/// Resolves the tenant's `default` namespace.
pub fn get_namespace(store: &KvStore, session: &Session) -> (r: Result<i32, KvError>)
    ensures
        r == match default_namespace(store.namespaces(), session.user_id) {
            Some(id) => Ok::<i32, KvError>(id),
            None => Err(KvError::MissingNamespace),
        },
{
    let nss = &store.namespaces;
    let ghost all = nss@;
    let mut i: usize = 0;
    assert(all.subrange(0, all.len() as int) =~= all);
    while i < nss.len()
        invariant
            nss@ == all,
            all == store.namespaces(),
            i <= all.len(),
            default_namespace(all, session.user_id) == default_namespace(
                all.subrange(i as int, all.len() as int),
                session.user_id,
            ),
        decreases all.len() - i,
    {
        let n = &nss[i];
        let ghost rest = all.subrange(i as int, all.len() as int);
        assert(rest[0] == all[i as int]);
        assert(rest.drop_first() =~= all.subrange(i + 1, all.len() as int));
        if n.user_id == session.user_id && same_text(n.name.as_str(), "default") {
            assert("default"@ =~= default_name()) by {
                reveal_strlit("default");
            }
            return Ok(n.id);
        }
        assert(!is_default_of(rest[0], session.user_id)) by {
            reveal_strlit("default");
            assert("default"@ =~= default_name());
        }
        i += 1;
    }
    assert(all.subrange(i as int, all.len() as int).len() == 0);
    Err(KvError::MissingNamespace)
}

/// Upserts `value` under `key` in the tenant's `default` namespace.
pub fn op_kv_set(store: &mut KvStore, session: &Session, key: String, value: String) -> (r: Result<
    (),
    KvError,
>)
    requires
        old(store).wf(),
    ensures
        final(store).wf(),
        final(store).namespaces() == old(store).namespaces(),
        match default_namespace(old(store).namespaces(), session.user_id) {
            Some(ns) => r is Ok && final(store).table() == old(store).table().insert(
                (ns, key@),
                value@,
            ),
            None => r == Err::<(), KvError>(KvError::MissingNamespace) && final(store).table()
                == old(store).table(),
        },
{
    let ns = match get_namespace(store, session) {
        Ok(ns) => ns,
        Err(e) => return Err(e),
    };
    let ghost k = (ns, key@);
    let ghost before = store.records@;
    proof {
        lemma_table_of(before);
    }
    match store.find_record(ns, key.as_str()) {
        Some(i) => {
            let rec = Record { key, value, namespace_id: ns };
            store.records.set(i, rec);
            let ghost after = store.records@;
            assert(forall|j: int|
                0 <= j < after.len() ==> record_key(#[trigger] after[j]) == record_key(before[j]));
            assert(keys_unique(after)) by {
                assert forall|a: int, b: int|
                    0 <= a < after.len() && 0 <= b < after.len() && record_key(#[trigger] after[a])
                        == record_key(#[trigger] after[b]) implies a == b by {
                    assert(record_key(before[a]) == record_key(before[b]));
                }
            }
            proof {
                lemma_table_of(after);
                let expect = table_of(before).insert(k, value@);
                assert forall|p: (i32, Seq<char>)| #[trigger]
                    table_of(after).contains_key(p) == expect.contains_key(p) by {
                    if table_of(after).contains_key(p) {
                        let j = choose|j: int| 0 <= j < after.len() && record_key(#[trigger] after[j]) == p;
                        assert(record_key(before[j]) == p);
                    }
                    if table_of(before).contains_key(p) {
                        let j = choose|j: int| 0 <= j < before.len() && record_key(#[trigger] before[j]) == p;
                        assert(record_key(after[j]) == p);
                    }
                }
                assert forall|p: (i32, Seq<char>)| #[trigger]
                    table_of(after).contains_key(p) implies table_of(after)[p] == expect[p] by {
                    let j = choose|j: int| 0 <= j < after.len() && record_key(#[trigger] after[j]) == p;
                    if j != i {
                        assert(after[j] == before[j]);
                        assert(record_key(before[j]) != k);
                    }
                }
                assert(table_of(after) =~= expect);
            }
        },
        None => {
            let rec = Record { key, value, namespace_id: ns };
            store.records.push(rec);
            let ghost after = store.records@;
            assert(after.drop_last() =~= before);
            assert(keys_unique(after)) by {
                assert forall|a: int, b: int|
                    0 <= a < after.len() && 0 <= b < after.len() && record_key(#[trigger] after[a])
                        == record_key(#[trigger] after[b]) implies a == b by {
                    if a < before.len() {
                        assert(after[a] == before[a]);
                    }
                    if b < before.len() {
                        assert(after[b] == before[b]);
                    }
                }
            }
        },
    }
    Ok(())
}

/// Reads the value under `key` in the tenant's `default` namespace.
pub fn op_kv_get(store: &KvStore, session: &Session, key: &str) -> (r: Result<
    Option<String>,
    KvError,
>)
    requires
        store.wf(),
    ensures
        match default_namespace(store.namespaces(), session.user_id) {
            Some(ns) => match r {
                Ok(v) => opt_text(v) == lookup(namespace_view(store.table(), ns), key@),
                Err(_) => false,
            },
            None => r == Err::<Option<String>, KvError>(KvError::MissingNamespace),
        },
{
    let ns = match get_namespace(store, session) {
        Ok(ns) => ns,
        Err(e) => return Err(e),
    };
    proof {
        lemma_table_of(store.records@);
    }
    match store.find_record(ns, key) {
        Some(i) => Ok(Some(store.records[i].value.clone())),
        None => Ok(None),
    }
}

/// Removes the record under `key` in the tenant's `default` namespace, if
/// there is one.
pub fn op_kv_delete(store: &mut KvStore, session: &Session, key: &str) -> (r: Result<(), KvError>)
    requires
        old(store).wf(),
    ensures
        final(store).wf(),
        final(store).namespaces() == old(store).namespaces(),
        match default_namespace(old(store).namespaces(), session.user_id) {
            Some(ns) => r is Ok && final(store).table() == old(store).table().remove((ns, key@)),
            None => r == Err::<(), KvError>(KvError::MissingNamespace) && final(store).table()
                == old(store).table(),
        },
{
    let ns = match get_namespace(store, session) {
        Ok(ns) => ns,
        Err(e) => return Err(e),
    };
    let ghost k = (ns, key@);
    let ghost before = store.records@;
    proof {
        lemma_table_of(before);
    }
    match store.find_record(ns, key) {
        Some(i) => {
            store.records.remove(i);
            let ghost after = store.records@;
            assert(forall|j: int|
                0 <= j < after.len() ==> #[trigger] after[j] == before[if j < i {
                    j
                } else {
                    j + 1
                }]);
            assert(keys_unique(after)) by {
                assert forall|a: int, b: int|
                    0 <= a < after.len() && 0 <= b < after.len() && record_key(#[trigger] after[a])
                        == record_key(#[trigger] after[b]) implies a == b by {
                    let a2 = if a < i { a } else { a + 1 };
                    let b2 = if b < i { b } else { b + 1 };
                    assert(after[a] == before[a2]);
                    assert(after[b] == before[b2]);
                }
            }
            proof {
                lemma_table_of(after);
                let expect = table_of(before).remove(k);
                assert forall|p: (i32, Seq<char>)| #[trigger]
                    table_of(after).contains_key(p) == expect.contains_key(p) by {
                    if table_of(after).contains_key(p) {
                        let j = choose|j: int| 0 <= j < after.len() && record_key(#[trigger] after[j]) == p;
                        let j2 = if j < i { j } else { j + 1 };
                        assert(after[j] == before[j2]);
                        assert(record_key(before[j2]) == p);
                        assert(j2 != i);
                    }
                    if expect.contains_key(p) {
                        let j = choose|j: int| 0 <= j < before.len() && record_key(#[trigger] before[j]) == p;
                        assert(j != i);
                        let j2 = if j < i { j } else { j - 1 };
                        assert(after[j2] == before[j]);
                        assert(record_key(after[j2]) == p);
                    }
                }
                assert forall|p: (i32, Seq<char>)| #[trigger]
                    table_of(after).contains_key(p) implies table_of(after)[p] == expect[p] by {
                    let j = choose|j: int| 0 <= j < after.len() && record_key(#[trigger] after[j]) == p;
                    let j2 = if j < i { j } else { j + 1 };
                    assert(after[j] == before[j2]);
                }
                assert(table_of(after) =~= expect);
            }
        },
        None => {
            assert(table_of(before).remove(k) =~= table_of(before));
        },
    }
    Ok(())
}

/// The table without any pair of namespace `ns`.
pub open spec fn without_namespace(t: Map<(i32, Seq<char>), Seq<char>>, ns: i32) -> Map<
    (i32, Seq<char>),
    Seq<char>,
> {
    t.restrict(Set::new(|p: (i32, Seq<char>)| p.0 != ns))
}

/// Removes every record of the tenant's `default` namespace.
pub fn op_kv_clear(store: &mut KvStore, session: &Session) -> (r: Result<(), KvError>)
    requires
        old(store).wf(),
    ensures
        final(store).wf(),
        final(store).namespaces() == old(store).namespaces(),
        match default_namespace(old(store).namespaces(), session.user_id) {
            Some(ns) => r is Ok && final(store).table() == without_namespace(old(store).table(), ns),
            None => r == Err::<(), KvError>(KvError::MissingNamespace) && final(store).table()
                == old(store).table(),
        },
{
    let ns = match get_namespace(store, session) {
        Ok(ns) => ns,
        Err(e) => return Err(e),
    };
    let ghost before = store.records@;
    proof {
        lemma_table_of(before);
    }
    let mut kept: Vec<Record> = Vec::new();
    let ghost mut idx: Seq<int> = Seq::empty();
    let mut i: usize = 0;
    while i < store.records.len()
        invariant
            store.records@ == before,
            keys_unique(before),
            i <= before.len(),
            idx.len() == kept@.len(),
            forall|j: int| 0 <= j < idx.len() ==> 0 <= #[trigger] idx[j] < i,
            forall|a: int, b: int| 0 <= a < b < idx.len() ==> idx[a] < idx[b],
            forall|j: int|
                0 <= j < idx.len() ==> #[trigger] kept@[j] == before[idx[j]] && kept@[j].namespace_id
                    != ns,
            forall|j: int|
                0 <= j < i && before[j].namespace_id != ns ==> exists|m: int|
                    0 <= m < idx.len() && #[trigger] idx[m] == j,
        decreases before.len() - i,
    {
        let r = &store.records[i];
        if r.namespace_id != ns {
            let copy = Record {
                key: r.key.clone(),
                value: r.value.clone(),
                namespace_id: r.namespace_id,
            };
            kept.push(copy);
            proof {
                let old_idx = idx;
                idx = idx.push(i as int);
                assert forall|j: int|
                    0 <= j <= i && before[j].namespace_id != ns implies exists|m: int|
                        0 <= m < idx.len() && #[trigger] idx[m] == j by {
                    if j < i {
                        let m = choose|m: int| 0 <= m < old_idx.len() && #[trigger] old_idx[m] == j;
                        assert(idx[m] == j);
                    } else {
                        assert(idx[idx.len() - 1] == j);
                    }
                }
            }
        }
        i += 1;
    }
    let ghost after = kept@;
    assert(keys_unique(after)) by {
        assert forall|a: int, b: int|
            0 <= a < after.len() && 0 <= b < after.len() && record_key(#[trigger] after[a])
                == record_key(#[trigger] after[b]) implies a == b by {
            assert(record_key(before[idx[a]]) == record_key(before[idx[b]]));
            if a < b {
                assert(idx[a] < idx[b]);
            }
            if b < a {
                assert(idx[b] < idx[a]);
            }
        }
    }
    proof {
        lemma_table_of(after);
        let expect = without_namespace(table_of(before), ns);
        assert forall|p: (i32, Seq<char>)| #[trigger]
            table_of(after).contains_key(p) == expect.contains_key(p) by {
            if table_of(after).contains_key(p) {
                let j = choose|j: int| 0 <= j < after.len() && record_key(#[trigger] after[j]) == p;
                assert(record_key(before[idx[j]]) == p);
            }
            if expect.contains_key(p) {
                let j = choose|j: int| 0 <= j < before.len() && record_key(#[trigger] before[j]) == p;
                let m = choose|m: int| 0 <= m < idx.len() && #[trigger] idx[m] == j;
                assert(record_key(after[m]) == p);
            }
        }
        assert forall|p: (i32, Seq<char>)| #[trigger]
            table_of(after).contains_key(p) implies table_of(after)[p] == expect[p] by {
            let j = choose|j: int| 0 <= j < after.len() && record_key(#[trigger] after[j]) == p;
            assert(after[j] == before[idx[j]]);
        }
        assert(table_of(after) =~= expect);
    }
    store.records = kept;
    Ok(())
}

/// Reads every key-value pair of the tenant's `default` namespace, each key
/// once.
pub fn op_kv_all(store: &KvStore, session: &Session) -> (r: Result<Vec<(String, String)>, KvError>)
    requires
        store.wf(),
    ensures
        match default_namespace(store.namespaces(), session.user_id) {
            Some(ns) => match r {
                Ok(pairs) => pairs_denote(pairs@, namespace_view(store.table(), ns)),
                Err(_) => false,
            },
            None => r == Err::<Vec<(String, String)>, KvError>(KvError::MissingNamespace),
        },
{
    let ns = match get_namespace(store, session) {
        Ok(ns) => ns,
        Err(e) => return Err(e),
    };
    let ghost recs = store.records@;
    proof {
        lemma_table_of(recs);
    }
    let mut out: Vec<(String, String)> = Vec::new();
    let ghost mut idx: Seq<int> = Seq::empty();
    let mut i: usize = 0;
    while i < store.records.len()
        invariant
            store.records@ == recs,
            keys_unique(recs),
            i <= recs.len(),
            idx.len() == out@.len(),
            forall|j: int| 0 <= j < idx.len() ==> 0 <= #[trigger] idx[j] < i,
            forall|a: int, b: int| 0 <= a < b < idx.len() ==> idx[a] < idx[b],
            forall|j: int|
                0 <= j < idx.len() ==> recs[#[trigger] idx[j]].namespace_id == ns
                    && recs[idx[j]].key@ == out@[j].0@ && recs[idx[j]].value@ == out@[j].1@,
            forall|j: int|
                0 <= j < i && recs[j].namespace_id == ns ==> exists|m: int|
                    0 <= m < idx.len() && #[trigger] idx[m] == j,
        decreases recs.len() - i,
    {
        let r = &store.records[i];
        if r.namespace_id == ns {
            out.push((r.key.clone(), r.value.clone()));
            proof {
                let old_idx = idx;
                idx = idx.push(i as int);
                assert forall|j: int|
                    0 <= j <= i && recs[j].namespace_id == ns implies exists|m: int|
                        0 <= m < idx.len() && #[trigger] idx[m] == j by {
                    if j < i {
                        let m = choose|m: int| 0 <= m < old_idx.len() && #[trigger] old_idx[m] == j;
                        assert(idx[m] == j);
                    } else {
                        assert(idx[idx.len() - 1] == j);
                    }
                }
            }
        }
        i += 1;
    }
    proof {
        let m = namespace_view(table_of(recs), ns);
        let ps = out@;
        assert forall|a: int, b: int|
            0 <= a < ps.len() && 0 <= b < ps.len() && (#[trigger] ps[a]).0@ == (#[trigger] ps[b]).0@
            implies a == b by {
            assert(record_key(recs[idx[a]]) == record_key(recs[idx[b]]));
            if a < b {
                assert(idx[a] < idx[b]);
            }
            if b < a {
                assert(idx[b] < idx[a]);
            }
        }
        assert forall|j: int| 0 <= j < ps.len() implies #[trigger] m.contains_key(ps[j].0@)
            && m[ps[j].0@] == ps[j].1@ by {
            assert(record_key(recs[idx[j]]) == (ns, ps[j].0@));
        }
        assert forall|k: Seq<char>| #[trigger] m.contains_key(k) implies exists|j: int|
            0 <= j < ps.len() && ps[j].0@ == k by {
            let j = choose|j: int| 0 <= j < recs.len() && record_key(#[trigger] recs[j]) == (ns, k);
            let w = choose|w: int| 0 <= w < idx.len() && #[trigger] idx[w] == j;
            assert(ps[w].0@ == k);
        }
    }
    Ok(out)
}

/// `pairs` lists exactly the entries of `m`, each key once.
pub open spec fn pairs_denote(pairs: Seq<(String, String)>, m: Map<Seq<char>, Seq<char>>) -> bool {
    &&& forall|a: int, b: int|
        0 <= a < pairs.len() && 0 <= b < pairs.len() && (#[trigger] pairs[a]).0@ == (
        #[trigger] pairs[b]).0@ ==> a == b
    &&& forall|j: int|
        0 <= j < pairs.len() ==> #[trigger] m.contains_key(pairs[j].0@) && m[pairs[j].0@]
            == pairs[j].1@
    &&& forall|k: Seq<char>| #[trigger]
        m.contains_key(k) ==> exists|j: int| 0 <= j < pairs.len() && pairs[j].0@ == k
}

/// A write that a script can issue through the key-value capability.
pub enum KvWrite {
    Put(Seq<char>, Seq<char>),
    Remove(Seq<char>),
    RemoveAll,
}

/// The table after one write to namespace `ns`, as the operations state it.
pub open spec fn write_table(t: Map<(i32, Seq<char>), Seq<char>>, ns: i32, w: KvWrite) -> Map<
    (i32, Seq<char>),
    Seq<char>,
> {
    match w {
        KvWrite::Put(k, v) => t.insert((ns, k), v),
        KvWrite::Remove(k) => t.remove((ns, k)),
        KvWrite::RemoveAll => without_namespace(t, ns),
    }
}

/// The table after a series of writes to namespace `ns`, in order.
pub open spec fn write_table_all(
    t: Map<(i32, Seq<char>), Seq<char>>,
    ns: i32,
    ws: Seq<KvWrite>,
) -> Map<(i32, Seq<char>), Seq<char>>
    decreases ws.len(),
{
    if ws.len() == 0 {
        t
    } else {
        write_table(write_table_all(t, ns, ws.drop_last()), ns, ws.last())
    }
}

/// What the last write touching `k` left there; the initial contents where
/// no write touched it.
pub open spec fn last_written(m: Map<Seq<char>, Seq<char>>, ws: Seq<KvWrite>, k: Seq<char>) -> Option<
    Seq<char>,
>
    decreases ws.len(),
{
    if ws.len() == 0 {
        lookup(m, k)
    } else {
        match ws.last() {
            KvWrite::Put(k2, v) => if k2 == k {
                Some(v)
            } else {
                last_written(m, ws.drop_last(), k)
            },
            KvWrite::Remove(k2) => if k2 == k {
                None
            } else {
                last_written(m, ws.drop_last(), k)
            },
            KvWrite::RemoveAll => None,
        }
    }
}

/// No two records of a well-formed store share a namespace and a key.
pub proof fn lemma_one_record_per_key(store: &KvStore, i: int, j: int)
    requires
        store.wf(),
        0 <= i < store.records().len(),
        0 <= j < store.records().len(),
        record_key(store.records()[i]) == record_key(store.records()[j]),
    ensures
        i == j,
{
}

/// Serial writes from one tenant obey last-writer-wins: reading `k` after
/// any series of writes gives what the last write touching `k` left, and the
/// initial value where none touched it.
pub proof fn lemma_last_writer_wins(
    t: Map<(i32, Seq<char>), Seq<char>>,
    ns: i32,
    ws: Seq<KvWrite>,
    k: Seq<char>,
)
    ensures
        lookup(namespace_view(write_table_all(t, ns, ws), ns), k) == last_written(
            namespace_view(t, ns),
            ws,
            k,
        ),
    decreases ws.len(),
{
    if ws.len() > 0 {
        lemma_last_writer_wins(t, ns, ws.drop_last(), k);
    }
}

/// Setting `k` to `v` and then reading `k` gives `v`.
pub proof fn lemma_set_then_get(t: Map<(i32, Seq<char>), Seq<char>>, ns: i32, k: Seq<char>, v: Seq<char>)
    ensures
        lookup(namespace_view(t.insert((ns, k), v), ns), k) == Some(v),
{
}

/// Of two sets of `k`, a later read sees the second value.
pub proof fn lemma_set_set_then_get(
    t: Map<(i32, Seq<char>), Seq<char>>,
    ns: i32,
    k: Seq<char>,
    v1: Seq<char>,
    v2: Seq<char>,
)
    ensures
        lookup(namespace_view(t.insert((ns, k), v1).insert((ns, k), v2), ns), k) == Some(v2),
{
}

/// Setting `k`, deleting it, then reading it finds nothing.
pub proof fn lemma_set_delete_then_get(
    t: Map<(i32, Seq<char>), Seq<char>>,
    ns: i32,
    k: Seq<char>,
    v: Seq<char>,
)
    ensures
        lookup(namespace_view(t.insert((ns, k), v).remove((ns, k)), ns), k) == None::<Seq<char>>,
{
}

/// After a clear, listing the namespace gives no pair at all.
pub proof fn lemma_clear_then_all(
    t: Map<(i32, Seq<char>), Seq<char>>,
    ns: i32,
    pairs: Seq<(String, String)>,
)
    requires
        pairs_denote(pairs, namespace_view(without_namespace(t, ns), ns)),
    ensures
        pairs.len() == 0,
{
    if pairs.len() > 0 {
        let k = pairs[0].0@;
        assert(namespace_view(without_namespace(t, ns), ns).contains_key(k));
    }
}

} // verus!
