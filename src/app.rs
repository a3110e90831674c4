use vstd::prelude::*;

use crate::session::Session;

verus! {

/// The runtime-side handle of one tenant's deployment.
pub struct App {
    pub session: Session,
    /// The tenant's name, which the router matches against `x-app`.
    pub name: String,
    /// The directory the deployment was unpacked into.
    pub path: String,
    /// The entry script inside `path`.
    pub script_file_name: String,
    /// The storage key of the deployment archive.
    pub deployment: String,
}

/// The capabilities a worker's scripts get. `None` denies a capability;
/// `Some` of an empty list grants all of it; `Some` of a list grants what the
/// list names.
pub struct PermissionSet {
    pub allow_env: Option<Vec<String>>,
    pub allow_ffi: Option<Vec<String>>,
    pub allow_hrtime: bool,
    pub allow_run: Option<Vec<String>>,
    pub allow_write: Option<Vec<String>>,
    pub allow_net: Option<Vec<String>>,
    pub allow_read: Option<Vec<String>>,
    pub prompt: bool,
}

/// `p` is the directory `dir` or lies beneath it.
pub open spec fn within(dir: Seq<char>, p: Seq<char>) -> bool {
    p == dir || (p.len() > dir.len() && p.subrange(0, dir.len() as int) == dir && p[dir.len() as int]
        == '/')
}

/// `p` holds a `..` component at `i`.
pub open spec fn parent_ref_at(p: Seq<char>, i: int) -> bool {
    &&& 0 <= i
    &&& i + 2 <= p.len()
    &&& p[i] == '.'
    &&& p[i + 1] == '.'
    &&& (i == 0 || p[i - 1] == '/')
    &&& (i + 2 == p.len() || p[i + 2] == '/')
}

/// `p` climbs to a parent directory somewhere.
pub open spec fn parent_ref(p: Seq<char>) -> bool {
    exists|i: int| parent_ref_at(p, i)
}

/// Whether `list` lets a path be reached: an empty list lets every path
/// through, otherwise one of its directories has to hold it.
pub open spec fn list_grants(list: Seq<String>, p: Seq<char>) -> bool {
    list.len() == 0 || exists|i: int| 0 <= i < list.len() && within(#[trigger] list[i]@, p)
}

/// Whether `perms` let a script read `p`.
pub open spec fn read_allowed(perms: PermissionSet, p: Seq<char>) -> bool {
    match perms.allow_read {
        None => false,
        Some(list) => !parent_ref(p) && list_grants(list@, p),
    }
}

/// `perms` let scripts read beneath `dir` and nowhere else.
pub open spec fn reads_confined_to(perms: PermissionSet, dir: Seq<char>) -> bool {
    match perms.allow_read {
        Some(list) => list@.len() == 1 && list@[0]@ == dir,
        None => false,
    }
}

/// The decimal digit `d` as a character.
pub open spec fn digit_char(d: nat) -> char {
    if d == 0 { '0' } else if d == 1 { '1' } else if d == 2 { '2' } else if d == 3 { '3' }
    else if d == 4 { '4' } else if d == 5 { '5' } else if d == 6 { '6' } else if d == 7 { '7' }
    else if d == 8 { '8' } else { '9' }
}

/// `n` written in decimal.
pub open spec fn decimal(n: nat) -> Seq<char>
    decreases n,
{
    if n < 10 {
        seq![digit_char(n)]
    } else {
        decimal(n / 10) + seq![digit_char(n % 10)]
    }
}

/// A tenant id written in decimal, with a sign where it is negative.
pub open spec fn id_text(id: i32) -> Seq<char> {
    if id < 0 {
        seq!['-'] + decimal((-id) as nat)
    } else {
        decimal(id as nat)
    }
}

/// The directory a tenant's deployment is unpacked into.
pub open spec fn unpack_dir_of(root: Seq<char>, id: i32) -> Seq<char> {
    root + seq!['/'] + id_text(id)
}

fn digit_str(d: u64) -> (s: &'static str)
    requires
        d < 10,
    ensures
        s@ == seq![digit_char(d as nat)],
{
    proof {
        reveal_strlit("0");
        reveal_strlit("1");
        reveal_strlit("2");
        reveal_strlit("3");
        reveal_strlit("4");
        reveal_strlit("5");
        reveal_strlit("6");
        reveal_strlit("7");
        reveal_strlit("8");
        reveal_strlit("9");
    }
    let s = if d == 0 { "0" } else if d == 1 { "1" } else if d == 2 { "2" } else if d == 3 { "3" }
    else if d == 4 { "4" } else if d == 5 { "5" } else if d == 6 { "6" } else if d == 7 { "7" }
    else if d == 8 { "8" } else { "9" };
    assert(s@ =~= seq![digit_char(d as nat)]);
    s
}

/// Appends `n` in decimal to `out`.
fn push_decimal(out: &mut String, n: u64)
    ensures
        final(out)@ == old(out)@ + decimal(n as nat),
    decreases n,
{
    if n >= 10 {
        push_decimal(out, n / 10);
    }
    out.append(digit_str(n % 10));
    proof {
        if n < 10 {
            assert(n % 10 == n);
        }
    }
}

/// The directory under `root` that holds tenant `id`'s deployment.
pub fn unpack_dir(root: &str, id: i32) -> (r: String)
    ensures
        r@ == unpack_dir_of(root@, id),
{
    let mut out = String::from_str(root);
    proof {
        reveal_strlit("/");
        reveal_strlit("-");
    }
    out.append("/");
    if id < 0 {
        out.append("-");
        let n: u64 = (0i64 - id as i64) as u64;
        push_decimal(&mut out, n);
    } else {
        push_decimal(&mut out, id as u64);
    }
    assert(out@ =~= unpack_dir_of(root@, id));
    out
}

/// Whether `p` is the directory `dir` or lies beneath it.
pub fn is_within(dir: &str, p: &str) -> (r: bool)
    ensures
        r == within(dir@, p@),
{
    let n = dir.unicode_len();
    let m = p.unicode_len();
    if m < n {
        return false;
    }
    let mut i: usize = 0;
    while i < n
        invariant
            n == dir@.len(),
            m == p@.len(),
            n <= m,
            i <= n,
            forall|j: int| 0 <= j < i ==> p@[j] == dir@[j],
        decreases n - i,
    {
        if p.get_char(i) != dir.get_char(i) {
            assert(p@.subrange(0, n as int)[i as int] != dir@[i as int]);
            return false;
        }
        i += 1;
    }
    assert(p@.subrange(0, n as int) =~= dir@);
    if m == n {
        assert(p@ =~= dir@);
        true
    } else {
        p.get_char(n) == '/'
    }
}

/// Whether `p` climbs to a parent directory somewhere.
pub fn has_parent_ref(p: &str) -> (r: bool)
    ensures
        r == parent_ref(p@),
{
    let m = p.unicode_len();
    if m < 2 {
        return false;
    }
    let mut i: usize = 0;
    while i < m - 1
        invariant
            m == p@.len(),
            2 <= m,
            i <= m - 1,
            forall|j: int| 0 <= j < i ==> !parent_ref_at(p@, j),
        decreases m - i,
    {
        if p.get_char(i) == '.' && p.get_char(i + 1) == '.' && (i == 0 || p.get_char(i - 1) == '/')
            && (i + 2 == m || p.get_char(i + 2) == '/') {
            assert(parent_ref_at(p@, i as int));
            return true;
        }
        i += 1;
    }
    false
}

impl PermissionSet {
    /// Whether these permissions let a script read `p`.
    pub fn may_read(&self, p: &str) -> (r: bool)
        ensures
            r == read_allowed(*self, p@),
    {
        match &self.allow_read {
            None => false,
            Some(list) => {
                if has_parent_ref(p) {
                    return false;
                }
                if list.len() == 0 {
                    return true;
                }
                let mut i: usize = 0;
                while i < list.len()
                    invariant
                        i <= list@.len(),
                        !parent_ref(p@),
                        self.allow_read is Some,
                        self.allow_read->0@ == list@,
                        forall|j: int| 0 <= j < i ==> !within(#[trigger] list@[j]@, p@),
                    decreases list@.len() - i,
                {
                    if is_within(list[i].as_str(), p) {
                        assert(within(list@[i as int]@, p@));
                        return true;
                    }
                    i += 1;
                }
                false
            },
        }
    }
}

/// A script of a tenant whose reads are confined to `dir` can read a path
/// only if it lies beneath `dir` and climbs to no parent.
pub proof fn lemma_reads_stay_in_dir(perms: PermissionSet, dir: Seq<char>, p: Seq<char>)
    requires
        reads_confined_to(perms, dir),
        read_allowed(perms, p),
    ensures
        within(dir, p),
        !parent_ref(p),
{
    let list = perms.allow_read->0@;
    let i = choose|i: int| 0 <= i < list.len() && within(#[trigger] list[i]@, p);
    assert(i == 0);
}

impl App {
    pub fn new(
        session: Session,
        name: String,
        path: String,
        script_file_name: String,
        deployment: String,
    ) -> (a: App)
        ensures
            a.session == session,
            a.name == name,
            a.path == path,
            a.script_file_name == script_file_name,
            a.deployment == deployment,
    {
        App { session, name, path, script_file_name, deployment }
    }

    /// The capabilities a worker of this app runs with: network without
    /// restriction, reads beneath the app's own directory, nothing else.
    pub fn permissions(&self) -> (p: PermissionSet)
        ensures
            reads_confined_to(p, self.path@),
            p.allow_env is None,
            p.allow_ffi is None,
            !p.allow_hrtime,
            p.allow_run is None,
            p.allow_write is None,
            p.allow_net is Some && p.allow_net->0@.len() == 0,
            !p.prompt,
    {
        let mut dirs: Vec<String> = Vec::new();
        dirs.push(self.path.clone());
        PermissionSet {
            allow_env: None,
            allow_ffi: None,
            allow_hrtime: false,
            allow_run: None,
            allow_write: None,
            allow_net: Some(Vec::new()),
            allow_read: Some(dirs),
            prompt: false,
        }
    }

    /// The path of the entry script.
    pub fn script_path(&self) -> (r: String)
        ensures
            r@ == self.path@ + seq!['/'] + self.script_file_name@,
    {
        let mut out = self.path.clone();
        proof {
            reveal_strlit("/");
        }
        out.append("/");
        out.append(self.script_file_name.as_str());
        out
    }
}

} // verus!
