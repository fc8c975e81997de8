//! Server contexts: the named remote hosts agentssh connects to, kept in one
//! file sorted by name, and the `context` subcommands that read and change
//! them. Reading and writing the file is the caller's; this module holds the
//! contents and every decision made about them.

use vstd::prelude::*;

use crate::cli::{ContextCmd, HostKeyPolicyArg};
use crate::text::{
    chars_of, dec, oct, pad_right_spec, push_char, push_octal, push_padded, push_str, push_u64,
};

verus! {

/// The port a context uses when none is given.
pub fn default_port() -> (p: u16)
    ensures
        p == 22,
{
    22
}

/// How agentssh authenticates to a host.
#[derive(Clone, Debug)]
pub enum Auth {
    /// Private key file on disk; its passphrase, if any, is prompted for and
    /// never stored.
    Key { path: String },
    /// Delegate to the running ssh-agent.
    Agent,
}

/// What to do with a host key that is not in `known_hosts`. A changed key is
/// refused under either policy.
#[derive(Copy, Clone, Debug, PartialEq, Eq, Structural)]
pub enum HostKeyPolicy {
    Strict,
    AcceptNew,
}

impl Default for HostKeyPolicy {
    fn default() -> (r: Self)
        ensures
            r == HostKeyPolicy::AcceptNew,
    {
        HostKeyPolicy::AcceptNew
    }
}

impl HostKeyPolicy {
    /// The policy a command-line choice names.
    pub open spec fn from_arg_spec(arg: HostKeyPolicyArg) -> Self {
        match arg {
            HostKeyPolicyArg::Strict => HostKeyPolicy::Strict,
            HostKeyPolicyArg::AcceptNew => HostKeyPolicy::AcceptNew,
        }
    }

    /// The policy a command-line choice names.
    pub fn from_arg(arg: HostKeyPolicyArg) -> (r: Self)
        ensures
            r == Self::from_arg_spec(arg),
    {
        match arg {
            HostKeyPolicyArg::Strict => HostKeyPolicy::Strict,
            HostKeyPolicyArg::AcceptNew => HostKeyPolicy::AcceptNew,
        }
    }
}

/// One remote host.
#[derive(Clone, Debug)]
pub struct SshContext {
    pub host: String,
    pub port: u16,
    pub user: String,
    pub auth: Auth,
    pub host_key_policy: HostKeyPolicy,
}

impl Auth {
    /// A copy of this value.
    pub fn duplicate(&self) -> (r: Self)
        ensures
            r == *self,
    {
        match self {
            Auth::Key { path } => Auth::Key { path: path.clone() },
            Auth::Agent => Auth::Agent,
        }
    }
}

impl SshContext {
    /// A copy of this value.
    pub fn duplicate(&self) -> (r: Self)
        ensures
            r == *self,
    {
        SshContext {
            host: self.host.clone(),
            port: self.port,
            user: self.user.clone(),
            auth: self.auth.duplicate(),
            host_key_policy: self.host_key_policy,
        }
    }
}

// ---------------------------------------------------------------------------
// paths
// ---------------------------------------------------------------------------

/// `base.join(p)` for a Unix path: an absolute `p` replaces `base`; otherwise
/// `p` is appended, after a `/` unless `base` is empty or already ends in
/// one.
pub open spec fn path_join_spec(base: Seq<char>, p: Seq<char>) -> Seq<char> {
    if p.len() > 0 && p[0] == '/' {
        p
    } else if base.len() > 0 && base.last() != '/' {
        base + seq!['/'] + p
    } else {
        base + p
    }
}

/// Joins a path onto a directory, as `Path::join` does on Unix.
pub fn path_join(base: &str, p: &str) -> (r: String)
    ensures
        r@ == path_join_spec(base@, p@),
{
    let b = chars_of(base);
    let q = chars_of(p);
    let mut r = String::new();
    if q.len() > 0 && q[0] == '/' {
        push_str(&mut r, p);
        return r;
    }
    push_str(&mut r, base);
    if b.len() > 0 && b[b.len() - 1] != '/' {
        push_char(&mut r, '/');
    }
    push_str(&mut r, p);
    r
}

/// Where agentssh keeps its files.
#[derive(Clone, Debug)]
pub struct Paths {
    pub contexts_file: String,
    pub db_file: String,
    pub recordings_dir: String,
}

/// The files under the per-user config and data directories.
pub fn paths_in(config_dir: &str, data_dir: &str) -> (r: Paths)
    ensures
        r.contexts_file@ == path_join_spec(config_dir@, "contexts.toml"@),
        r.db_file@ == path_join_spec(data_dir@, "agentssh.db"@),
        r.recordings_dir@ == path_join_spec(data_dir@, "recordings"@),
{
    Paths {
        contexts_file: path_join(config_dir, "contexts.toml"),
        db_file: path_join(data_dir, "agentssh.db"),
        recordings_dir: path_join(data_dir, "recordings"),
    }
}

/// A key path with a leading `~/` expanded against the home directory, when
/// there is one; any other path as it is.
pub open spec fn expand_home_spec(path: Seq<char>, home: Option<Seq<char>>) -> Seq<char> {
    if path.len() >= 2 && path[0] == '~' && path[1] == '/' && home is Some {
        path_join_spec(home->0, path.skip(2))
    } else {
        path
    }
}

/// Expands a leading `~/` in a key path.
pub fn expand_home(path: &str, home: Option<&str>) -> (r: String)
    ensures
        r@ == expand_home_spec(path@, match home {
            Some(h) => Some(h@),
            None => None,
        }),
{
    let v = chars_of(path);
    if v.len() >= 2 && v[0] == '~' && v[1] == '/' {
        if let Some(h) = home {
            let mut rest = String::new();
            let mut i: usize = 2;
            while i < v.len()
                invariant
                    2 <= i <= v.len(),
                    rest@ == v@.subrange(2, i as int),
                decreases v.len() - i,
            {
                push_char(&mut rest, v[i]);
                assert(v@.subrange(2, i + 1) == v@.subrange(2, i as int).push(v@[i as int]));
                i += 1;
            }
            assert(v@.subrange(2, v.len() as int) == v@.skip(2));
            return path_join(h, rest.as_str());
        }
    }
    let mut r = String::new();
    push_str(&mut r, path);
    r
}

// ---------------------------------------------------------------------------
// names, ordered as a BTreeMap<String, _> orders them
// ---------------------------------------------------------------------------

/// `a` sorts before `b`: lexicographic order by code point, which is the
/// byte order of their UTF-8 encodings.
pub open spec fn name_lt(a: Seq<char>, b: Seq<char>) -> bool
    decreases a.len(),
{
    if a.len() == 0 {
        b.len() > 0
    } else if b.len() == 0 {
        false
    } else if a[0] != b[0] {
        (a[0] as u32) < (b[0] as u32)
    } else {
        name_lt(a.drop_first(), b.drop_first())
    }
}

proof fn lemma_name_lt_irreflexive(a: Seq<char>)
    ensures
        !name_lt(a, a),
    decreases a.len(),
{
    if a.len() > 0 {
        lemma_name_lt_irreflexive(a.drop_first());
    }
}

proof fn lemma_name_lt_total(a: Seq<char>, b: Seq<char>)
    ensures
        a != b ==> name_lt(a, b) || name_lt(b, a),
        !(name_lt(a, b) && name_lt(b, a)),
    decreases a.len(),
{
    if a.len() > 0 && b.len() > 0 {
        lemma_name_lt_total(a.drop_first(), b.drop_first());
        if a[0] == b[0] && a.drop_first() == b.drop_first() {
            assert(a == seq![a[0]] + a.drop_first());
            assert(b == seq![b[0]] + b.drop_first());
        }
        if a[0] != b[0] {
            assert((a[0] as u32) != (b[0] as u32)) by {
                vstd::utf8::char_u32_cast(a[0], a[0] as u32);
                vstd::utf8::char_u32_cast(b[0], b[0] as u32);
            }
        }
    } else if a.len() == 0 && b.len() == 0 {
        assert(a == b);
    }
}

proof fn lemma_name_lt_transitive(a: Seq<char>, b: Seq<char>, c: Seq<char>)
    requires
        name_lt(a, b),
        name_lt(b, c),
    ensures
        name_lt(a, c),
    decreases a.len(),
{
    if a.len() > 0 && b.len() > 0 && c.len() > 0 {
        if a[0] == b[0] && b[0] == c[0] {
            lemma_name_lt_transitive(a.drop_first(), b.drop_first(), c.drop_first());
        }
    }
}

/// How two names compare.
#[derive(Copy, Clone, Debug, PartialEq, Eq, Structural)]
pub enum NameOrder {
    Before,
    Same,
    After,
}

fn compare_names(a: &Vec<char>, b: &Vec<char>) -> (r: NameOrder)
    ensures
        r == NameOrder::Before <==> name_lt(a@, b@),
        r == NameOrder::Same <==> a@ == b@,
        r == NameOrder::After <==> name_lt(b@, a@),
{
    proof {
        lemma_name_lt_total(a@, b@);
        lemma_name_lt_irreflexive(a@);
    }
    let mut i: usize = 0;
    assert(a@.skip(0) == a@ && b@.skip(0) == b@);
    assert(a@.take(0) =~= b@.take(0));
    while i < a.len() && i < b.len() && a[i] == b[i]
        invariant
            i <= a@.len(),
            i <= b@.len(),
            a@.take(i as int) == b@.take(i as int),
            name_lt(a@, b@) == name_lt(a@.skip(i as int), b@.skip(i as int)),
            name_lt(b@, a@) == name_lt(b@.skip(i as int), a@.skip(i as int)),
        decreases a.len() - i,
    {
        assert(a@.skip(i as int).drop_first() == a@.skip(i + 1));
        assert(b@.skip(i as int).drop_first() == b@.skip(i + 1));
        assert(a@.take(i + 1) == a@.take(i as int).push(a@[i as int]));
        assert(b@.take(i + 1) == b@.take(i as int).push(b@[i as int]));
        i += 1;
    }
    if i == a.len() && i == b.len() {
        assert(a@ == a@.take(i as int));
        assert(b@ == b@.take(i as int));
        NameOrder::Same
    } else if i == a.len() {
        assert(a@.skip(i as int).len() == 0);
        assert(a@ != b@);
        NameOrder::Before
    } else if i == b.len() {
        assert(b@.skip(i as int).len() == 0);
        assert(a@ != b@);
        NameOrder::After
    } else {
        assert(a@[i as int] == a@.skip(i as int)[0]);
        assert(b@[i as int] == b@.skip(i as int)[0]);
        assert(a@ != b@);
        if (a[i] as u32) < (b[i] as u32) {
            NameOrder::Before
        } else {
            NameOrder::After
        }
    }
}

// ---------------------------------------------------------------------------
// the contexts file
// ---------------------------------------------------------------------------

/// The contexts file: contexts by name, in name order, each name once.
pub struct ContextsFile {
    entries: Vec<(String, SshContext)>,
}

/// The names of a run of entries.
pub open spec fn entry_names(es: Seq<(String, SshContext)>) -> Seq<Seq<char>> {
    es.map_values(|e: (String, SshContext)| e.0@)
}

/// Names in strictly increasing order, so each at most once.
pub open spec fn strictly_sorted(ns: Seq<Seq<char>>) -> bool {
    forall|i: int, j: int| 0 <= i < j < ns.len() ==> name_lt(#[trigger] ns[i], #[trigger] ns[j])
}

/// Whether some entry is called `k`.
pub open spec fn has_entry(es: Seq<(String, SshContext)>, k: Seq<char>) -> bool {
    exists|i: int| 0 <= i < es.len() && #[trigger] es[i].0@ == k
}

/// The position of an entry called `k`.
pub open spec fn entry_index(es: Seq<(String, SshContext)>, k: Seq<char>) -> int {
    choose|i: int| 0 <= i < es.len() && #[trigger] es[i].0@ == k
}

/// The contexts of a run of entries by name.
pub open spec fn entries_map(es: Seq<(String, SshContext)>) -> Map<Seq<char>, SshContext> {
    Map::new(|k: Seq<char>| has_entry(es, k), |k: Seq<char>| es[entry_index(es, k)].1)
}

impl View for ContextsFile {
    type V = Map<Seq<char>, SshContext>;

    closed spec fn view(&self) -> Map<Seq<char>, SshContext> {
        entries_map(self.entries@)
    }
}

proof fn lemma_sorted_unique(ns: Seq<Seq<char>>, i: int, j: int)
    requires
        strictly_sorted(ns),
        0 <= i < ns.len(),
        0 <= j < ns.len(),
        ns[i] == ns[j],
    ensures
        i == j,
{
    if i < j {
        assert(name_lt(ns[i], ns[j]));
        lemma_name_lt_irreflexive(ns[i]);
    } else if j < i {
        assert(name_lt(ns[j], ns[i]));
        lemma_name_lt_irreflexive(ns[i]);
    }
}

proof fn lemma_entries_map_dom(es: Seq<(String, SshContext)>, k: Seq<char>)
    ensures
        entries_map(es).dom().contains(k) == has_entry(es, k),
{
    assert(Set::new(|k: Seq<char>| has_entry(es, k)).contains(k) == has_entry(es, k));
}

proof fn lemma_entries_map_at(es: Seq<(String, SshContext)>, i: int)
    requires
        strictly_sorted(entry_names(es)),
        0 <= i < es.len(),
    ensures
        entries_map(es).dom().contains(es[i].0@),
        entries_map(es)[es[i].0@] == es[i].1,
{
    let k = es[i].0@;
    assert(es[i].0@ == k);
    assert(has_entry(es, k));
    let j = entry_index(es, k);
    assert(entry_names(es)[i] == k && entry_names(es)[j] == k);
    lemma_sorted_unique(entry_names(es), i, j);
    assert(Set::new(|k: Seq<char>| has_entry(es, k)).contains(k));
    assert(entries_map(es)[k] == es[j].1);
}

impl ContextsFile {
    /// Well-formed: names in strictly increasing order. Every contexts file
    /// is.
    #[verifier::type_invariant]
    pub closed spec fn wf(&self) -> bool {
        strictly_sorted(entry_names(self.entries@))
    }

    /// The entries, in name order.
    pub closed spec fn entries_view(&self) -> Seq<(String, SshContext)> {
        self.entries@
    }

    /// The entries are in strictly increasing name order, and they are the
    /// contents of the file.
    pub proof fn lemma_entries(&self)
        requires
            self.wf(),
        ensures
            strictly_sorted(entry_names(self.entries_view())),
            self@ == entries_map(self.entries_view()),
            forall|i: int|
                0 <= i < self.entries_view().len() ==> self@.dom().contains(
                    #[trigger] self.entries_view()[i].0@,
                ) && self@[self.entries_view()[i].0@] == self.entries_view()[i].1,
    {
        assert forall|i: int| 0 <= i < self.entries_view().len() implies self@.dom().contains(
            #[trigger] self.entries_view()[i].0@,
        ) && self@[self.entries_view()[i].0@] == self.entries_view()[i].1 by {
            lemma_entries_map_at(self.entries@, i);
        }
    }

    /// Every name in the file is the name of an entry.
    pub proof fn lemma_dom(&self, k: Seq<char>)
        ensures
            self@.dom().contains(k) == has_entry(self.entries_view(), k),
    {
        lemma_entries_map_dom(self.entries@, k);
    }

    /// An empty file.
    pub fn new() -> (r: Self)
        ensures
            r.wf(),
            r@ == Map::<Seq<char>, SshContext>::empty(),
    {
        let r = ContextsFile { entries: Vec::new() };
        assert(r@ =~= Map::<Seq<char>, SshContext>::empty());
        r
    }

    /// How many contexts there are.
    pub fn len(&self) -> (n: usize)
        ensures
            n == self.entries_view().len(),
    {
        self.entries.len()
    }

    /// Whether there are none.
    pub fn is_empty(&self) -> (b: bool)
        ensures
            b == (self@ == Map::<Seq<char>, SshContext>::empty()),
            b == (self.entries_view().len() == 0),
    {
        proof {
            use_type_invariant(self);
        }
        proof {
                        if self.entries@.len() > 0 {
                lemma_entries_map_at(self.entries@, 0);
                assert(!Map::<Seq<char>, SshContext>::empty().dom().contains(self.entries@[0].0@));
            } else {
                assert(self@ =~= Map::<Seq<char>, SshContext>::empty());
            }
        }
        self.entries.len() == 0
    }

    /// The `i`-th context in name order.
    pub fn entry(&self, i: usize) -> (r: (&String, &SshContext))
        requires
            i < self.entries_view().len(),
        ensures
            *r.0 == self.entries_view()[i as int].0,
            *r.1 == self.entries_view()[i as int].1,
    {
        let e = &self.entries[i];
        (&e.0, &e.1)
    }

    /// Where `name` is, or where it would go.
    fn locate(&self, name: &Vec<char>) -> (r: (usize, bool))
        ensures
            r.0 <= self.entries@.len(),
            forall|k: int| 0 <= k < r.0 ==> name_lt(#[trigger] self.entries@[k].0@, name@),
            r.1 ==> r.0 < self.entries@.len() && self.entries@[r.0 as int].0@ == name@,
            !r.1 ==> r.0 == self.entries@.len() || name_lt(name@, self.entries@[r.0 as int].0@),
    {
        proof {
            use_type_invariant(self);
        }
        let mut i: usize = 0;
        while i < self.entries.len()
            invariant
                i <= self.entries@.len(),
                forall|k: int| 0 <= k < i ==> name_lt(#[trigger] self.entries@[k].0@, name@),
            decreases self.entries.len() - i,
        {
            let v = chars_of(self.entries[i].0.as_str());
            match compare_names(&v, name) {
                NameOrder::Before => {},
                NameOrder::Same => {
                    return (i, true);
                },
                NameOrder::After => {
                    return (i, false);
                },
            }
            i += 1;
        }
        (i, false)
    }

    /// The context called `name`, if any.
    pub fn get(&self, name: &str) -> (r: Option<&SshContext>)
        ensures
            r is Some <==> self@.dom().contains(name@),
            r matches Some(c) ==> *c == self@[name@],
    {
        proof {
            use_type_invariant(self);
        }
        let v = chars_of(name);
        let (i, found) = self.locate(&v);
        proof {
            if found {
                lemma_entries_map_at(self.entries@, i as int);
            } else {
                assert forall|k: int| 0 <= k < self.entries@.len() implies #[trigger] self.entries@[k].0@
                    != name@ by {
                    if k < i {
                        lemma_name_lt_irreflexive(name@);
                    } else if k == i {
                        lemma_name_lt_irreflexive(name@);
                    } else {
                        assert(name_lt(
                            entry_names(self.entries@)[i as int],
                            entry_names(self.entries@)[k],
                        ));
                        lemma_name_lt_transitive(name@, self.entries@[i as int].0@, self.entries@[k].0@);
                        lemma_name_lt_irreflexive(name@);
                    }
                }
            }
        }
        if found {
            Some(&self.entries[i].1)
        } else {
            None
        }
    }

    /// Adds or replaces the context called `name`; says whether one was
    /// replaced.
    pub fn insert(&mut self, name: String, ctx: SshContext) -> (replaced: bool)
        ensures
            final(self).wf(),
            final(self)@ == old(self)@.insert(name@, ctx),
            replaced == old(self)@.dom().contains(name@),
    {
        proof {
            use_type_invariant(&*self);
        }
        let ghost old_es = self.entries@;
        let v = chars_of(name.as_str());
        let (i, found) = self.locate(&v);
        let ghost key = name@;
        if found {
            proof {
                lemma_entries_map_at(old_es, i as int);
            }
            let mut entries: Vec<(String, SshContext)> = Vec::new();
                std::mem::swap(&mut entries, &mut self.entries);
            let ghost new_entry = (name, ctx);
            entries.set(i, (name, ctx));
            proof {
                let es = entries@;
                assert(es == old_es.update(i as int, new_entry));
                assert(es[i as int].0@ == key);
                assert(entry_names(es) =~= entry_names(old_es));
                assert(entries_map(es) =~= entries_map(old_es).insert(key, ctx)) by {
                    assert forall|k: Seq<char>| entries_map(es).dom().contains(k) <==> entries_map(old_es).insert(key, ctx).dom().contains(k) by {
                        lemma_entries_map_dom(es, k);
                        lemma_entries_map_dom(old_es, k);
                        if k == key {
                            assert(es[i as int].0@ == k);
                        }
                        if entries_map(old_es).dom().contains(k) {
                            let j = entry_index(old_es, k);
                            if j != i {
                                assert(es[j].0@ == k);
                            } else {
                                assert(es[j].0@ == k);
                            }
                        }
                        if entries_map(es).dom().contains(k) {
                            let j = entry_index(es, k);
                            if j != i {
                                assert(old_es[j].0@ == k);
                            }
                        }
                    }
                    assert forall|k: Seq<char>| #[trigger] entries_map(es).dom().contains(k) implies entries_map(es)[k] == entries_map(old_es).insert(key, ctx)[k] by {
                        lemma_entries_map_dom(es, k);
                        let j = entry_index(es, k);
                        lemma_entries_map_at(es, j);
                        if j != i {
                            assert(old_es[j] == es[j]);
                            lemma_entries_map_at(old_es, j);
                            if k == key {
                                lemma_sorted_unique(entry_names(es), i as int, j);
                            }
                        } else {
                            assert(k == key);
                            assert(es[j].1 == ctx);
                        }
                    }
                }
            }
            self.entries = entries;
            true
        } else {
            let mut entries: Vec<(String, SshContext)> = Vec::new();
            std::mem::swap(&mut entries, &mut self.entries);
            entries.insert(i, (name, ctx));
            proof {
                let es = entries@;
                assert(es == old_es.insert(i as int, (name, ctx)));
                let ns = entry_names(es);
                let ons = entry_names(old_es);
                assert forall|a: int, b: int| 0 <= a < b < ns.len() implies name_lt(#[trigger] ns[a], #[trigger] ns[b]) by {
                    if b < i {
                        assert(ns[a] == ons[a] && ns[b] == ons[b]);
                    } else if b == i {
                        assert(ns[a] == ons[a]);
                    } else if a < i {
                        assert(ns[a] == ons[a] && ns[b] == ons[b - 1]);
                        assert(name_lt(ons[a], key));
                        assert(name_lt(key, ons[i as int]));
                        if b - 1 > i {
                            assert(name_lt(ons[i as int], ons[b - 1]));
                            lemma_name_lt_transitive(key, ons[i as int], ons[b - 1]);
                        }
                        lemma_name_lt_transitive(ons[a], key, ons[b - 1]);
                    } else if a == i {
                        assert(ns[b] == ons[b - 1]);
                        if b - 1 > i {
                            assert(name_lt(ons[i as int], ons[b - 1]));
                            lemma_name_lt_transitive(key, ons[i as int], ons[b - 1]);
                        }
                    } else {
                        assert(ns[a] == ons[a - 1] && ns[b] == ons[b - 1]);
                    }
                }
                assert(!entries_map(old_es).dom().contains(key)) by {
                    lemma_entries_map_dom(old_es, key);
                    if entries_map(old_es).dom().contains(key) {
                        let j = entry_index(old_es, key);
                        if j < i {
                            lemma_name_lt_irreflexive(key);
                        } else if j == i {
                            lemma_name_lt_irreflexive(key);
                        } else {
                            assert(name_lt(ons[i as int], ons[j]));
                            lemma_name_lt_transitive(key, ons[i as int], ons[j]);
                            lemma_name_lt_irreflexive(key);
                        }
                    }
                }
                assert(entries_map(es) =~= entries_map(old_es).insert(key, ctx)) by {
                    assert forall|k: Seq<char>| entries_map(es).dom().contains(k) <==> entries_map(old_es).insert(key, ctx).dom().contains(k) by {
                        lemma_entries_map_dom(es, k);
                        lemma_entries_map_dom(old_es, k);
                        if entries_map(old_es).dom().contains(k) {
                            let j = entry_index(old_es, k);
                            if j < i {
                                assert(es[j].0@ == k);
                            } else {
                                assert(es[j + 1].0@ == k);
                            }
                        }
                        if k == key {
                            assert(es[i as int].0@ == k);
                        }
                        if entries_map(es).dom().contains(k) {
                            let j = entry_index(es, k);
                            if j < i {
                                assert(old_es[j].0@ == k);
                            } else if j > i {
                                assert(old_es[j - 1].0@ == k);
                            }
                        }
                    }
                    assert forall|k: Seq<char>| #[trigger] entries_map(es).dom().contains(k) implies entries_map(es)[k] == entries_map(old_es).insert(key, ctx)[k] by {
                        lemma_entries_map_dom(es, k);
                        let j = entry_index(es, k);
                        lemma_entries_map_at(es, j);
                        if j < i {
                            lemma_entries_map_at(old_es, j);
                        } else if j > i {
                            lemma_entries_map_at(old_es, j - 1);
                        }
                    }
                }
            }
            self.entries = entries;
            false
        }
    }

    /// Removes the context called `name`; says whether there was one.
    pub fn remove(&mut self, name: &str) -> (removed: bool)
        ensures
            final(self).wf(),
            final(self)@ == old(self)@.remove(name@),
            removed == old(self)@.dom().contains(name@),
    {
        proof {
            use_type_invariant(&*self);
        }
        let ghost old_es = self.entries@;
        let v = chars_of(name);
        let (i, found) = self.locate(&v);
        let ghost key = name@;
        let ghost ons = entry_names(old_es);
        if !found {
            proof {
                assert(!entries_map(old_es).dom().contains(key)) by {
                    lemma_entries_map_dom(old_es, key);
                    if entries_map(old_es).dom().contains(key) {
                        let j = entry_index(old_es, key);
                        if j < i {
                            lemma_name_lt_irreflexive(key);
                        } else if j == i {
                            lemma_name_lt_irreflexive(key);
                        } else {
                            assert(name_lt(ons[i as int], ons[j]));
                            lemma_name_lt_transitive(key, ons[i as int], ons[j]);
                            lemma_name_lt_irreflexive(key);
                        }
                    }
                }
                assert(entries_map(old_es).remove(key) =~= entries_map(old_es));
            }
            return false;
        }
        proof {
            lemma_entries_map_at(old_es, i as int);
        }
        let mut entries: Vec<(String, SshContext)> = Vec::new();
            std::mem::swap(&mut entries, &mut self.entries);
        let _gone = entries.remove(i);
        proof {
            let es = entries@;
            assert(es == old_es.remove(i as int));
            let ns = entry_names(es);
            assert forall|a: int, b: int| 0 <= a < b < ns.len() implies name_lt(#[trigger] ns[a], #[trigger] ns[b]) by {
                if b < i {
                    assert(ns[a] == ons[a] && ns[b] == ons[b]);
                } else if a < i {
                    assert(ns[a] == ons[a] && ns[b] == ons[b + 1]);
                } else {
                    assert(ns[a] == ons[a + 1] && ns[b] == ons[b + 1]);
                }
            }
            assert(entries_map(es) =~= entries_map(old_es).remove(key)) by {
                assert forall|k: Seq<char>| entries_map(es).dom().contains(k) <==> entries_map(old_es).remove(key).dom().contains(k) by {
                    lemma_entries_map_dom(es, k);
                    lemma_entries_map_dom(old_es, k);
                    if entries_map(old_es).dom().contains(k) && k != key {
                        let j = entry_index(old_es, k);
                        if j < i {
                            assert(es[j].0@ == k);
                        } else {
                            assert(j != i);
                            assert(es[j - 1].0@ == k);
                        }
                    }
                    if entries_map(es).dom().contains(k) {
                        let j = entry_index(es, k);
                        if j < i {
                            assert(old_es[j].0@ == k);
                            assert(ons[j] == k);
                            if k == key {
                                lemma_sorted_unique(ons, j, i as int);
                            }
                        } else {
                            assert(old_es[j + 1].0@ == k);
                            assert(ons[j + 1] == k);
                            if k == key {
                                lemma_sorted_unique(ons, j + 1, i as int);
                            }
                        }
                    }
                }
                assert forall|k: Seq<char>| #[trigger] entries_map(es).dom().contains(k) implies entries_map(es)[k] == entries_map(old_es).remove(key)[k] by {
                    lemma_entries_map_dom(es, k);
                    let j = entry_index(es, k);
                    lemma_entries_map_at(es, j);
                    if j < i {
                        lemma_entries_map_at(old_es, j);
                    } else {
                        lemma_entries_map_at(old_es, j + 1);
                    }
                }
            }
        }
        self.entries = entries;
        true
    }
}


// ---------------------------------------------------------------------------
// errors
// ---------------------------------------------------------------------------

/// What can go wrong with contexts.
#[derive(Clone, Debug)]
pub enum ConfigError {
    /// A session asked for a context that does not exist.
    NoContext(String),
    /// A `context show` or `context remove` named one that does not exist.
    UnknownContext(String),
    /// `context add` was given neither a key nor `--agent`.
    MissingAuth,
    /// The contexts file is readable by other users; carries its path and
    /// its mode.
    LooseMode(String, u32),
}

/// The message of a configuration error.
pub open spec fn config_error_message(e: ConfigError) -> Seq<char> {
    match e {
        ConfigError::NoContext(n) => "no context named '"@ + n@ + "'. Add one with: agentssh context add "@
            + n@ + " --host <h> --user <u> --key <path>"@,
        ConfigError::UnknownContext(n) => "no context named '"@ + n@ + "'"@,
        ConfigError::MissingAuth => "specify --key <path> or --agent"@,
        ConfigError::LooseMode(p, m) => p@ + " is readable by other users (mode "@ + oct(
            (m & 0o777) as nat,
        ) + "); it holds connection config.\nFix it with: chmod 600 "@ + p@,
    }
}

impl ConfigError {
    /// The message shown for the error.
    pub fn message(&self) -> (r: String)
        ensures
            r@ == config_error_message(*self),
    {
        let mut r = String::new();
        match self {
            ConfigError::NoContext(n) => {
                push_str(&mut r, "no context named '");
                push_str(&mut r, n.as_str());
                push_str(&mut r, "'. Add one with: agentssh context add ");
                push_str(&mut r, n.as_str());
                push_str(&mut r, " --host <h> --user <u> --key <path>");
            },
            ConfigError::UnknownContext(n) => {
                push_str(&mut r, "no context named '");
                push_str(&mut r, n.as_str());
                push_str(&mut r, "'");
            },
            ConfigError::MissingAuth => {
                push_str(&mut r, "specify --key <path> or --agent");
            },
            ConfigError::LooseMode(p, m) => {
                push_str(&mut r, p.as_str());
                push_str(&mut r, " is readable by other users (mode ");
                push_octal(&mut r, (*m & 0o777u32) as u64);
                push_str(&mut r, "); it holds connection config.\nFix it with: chmod 600 ");
                push_str(&mut r, p.as_str());
            },
        }
        r
    }
}

fn copy_string(s: &str) -> (r: String)
    ensures
        r@ == s@,
{
    let mut r = String::new();
    push_str(&mut r, s);
    r
}

/// Refuses a contexts file that users other than its owner may read or
/// write: any permission bit for group or others.
pub fn check_contexts_mode(path: &str, mode: u32) -> (r: Result<(), ConfigError>)
    ensures
        r is Ok <==> mode & 0o077 == 0,
        r matches Err(e) ==> (e matches ConfigError::LooseMode(p, m) && p@ == path@ && m == mode),
{
    if mode & 0o077u32 == 0 {
        Ok(())
    } else {
        Err(ConfigError::LooseMode(copy_string(path), mode))
    }
}

/// The context a session uses.
pub fn get_context(file: &ContextsFile, name: &str) -> (r: Result<SshContext, ConfigError>)
    ensures
        file@.dom().contains(name@) ==> r == Ok::<SshContext, ConfigError>(file@[name@]),
        !file@.dom().contains(name@) ==> (r matches Err(ConfigError::NoContext(n)) && n@ == name@),
{
    proof {
        use_type_invariant(file);
    }
    match file.get(name) {
        Some(c) => Ok(c.duplicate()),
        None => Err(ConfigError::NoContext(copy_string(name))),
    }
}

// ---------------------------------------------------------------------------
// the `context` subcommands
// ---------------------------------------------------------------------------

/// How a `context add` authenticates, from its `--key` and `--agent`.
pub fn auth_from_flags(key: Option<String>, agent: bool) -> (r: Result<Auth, ConfigError>)
    requires
        !(key is Some && agent),
    ensures
        key matches Some(p) ==> r == Ok::<Auth, ConfigError>(Auth::Key { path: p }),
        key is None && agent ==> r == Ok::<Auth, ConfigError>(Auth::Agent),
        key is None && !agent ==> r == Err::<Auth, ConfigError>(ConfigError::MissingAuth),
{
    match key {
        Some(path) => Ok(Auth::Key { path }),
        None => {
            if agent {
                Ok(Auth::Agent)
            } else {
                Err(ConfigError::MissingAuth)
            }
        },
    }
}

/// How the listing names an authentication method.
pub open spec fn auth_label(a: Auth) -> Seq<char> {
    match a {
        Auth::Key { .. } => "key"@,
        Auth::Agent => "agent"@,
    }
}

/// How the listing names a host-key policy.
pub open spec fn policy_label(p: HostKeyPolicy) -> Seq<char> {
    match p {
        HostKeyPolicy::Strict => "strict"@,
        HostKeyPolicy::AcceptNew => "accept-new"@,
    }
}

/// `host:port`.
pub open spec fn host_port(c: SshContext) -> Seq<char> {
    c.host@ + seq![':'] + dec(c.port as nat)
}

/// The header of `context list`.
pub open spec fn context_list_header() -> Seq<char> {
    pad_right_spec("NAME"@, 16) + " "@ + pad_right_spec("HOST"@, 24) + " "@ + pad_right_spec(
        "USER"@,
        12,
    ) + " "@ + pad_right_spec("AUTH"@, 8) + " POLICY"@
}

/// One row of `context list`.
pub open spec fn context_list_row(name: Seq<char>, c: SshContext) -> Seq<char> {
    pad_right_spec(name, 16) + " "@ + pad_right_spec(host_port(c), 24) + " "@ + pad_right_spec(
        c.user@,
        12,
    ) + " "@ + pad_right_spec(auth_label(c.auth), 8) + " "@ + policy_label(c.host_key_policy)
}

/// The lines of `context show`.
pub open spec fn context_show_lines(name: Seq<char>, c: SshContext) -> Seq<Seq<char>> {
    seq![
        "name            "@ + name,
        "host            "@ + host_port(c),
        "user            "@ + c.user@,
        match c.auth {
            Auth::Key { path } => "auth            key file at "@ + path@,
            Auth::Agent => "auth            ssh-agent"@,
        },
        "host key policy "@ + policy_label(c.host_key_policy),
    ]
}

/// What a `context` subcommand prints, and whether the file changed and
/// must be saved.
#[derive(Clone, Debug)]
pub struct ContextReport {
    pub lines: Vec<String>,
    pub changed: bool,
}

/// The text of a run of lines.
pub open spec fn lines_view(v: Seq<String>) -> Seq<Seq<char>> {
    v.map_values(|s: String| s@)
}

fn push_auth_label(s: &mut String, a: &Auth)
    ensures
        final(s)@ == old(s)@ + auth_label(*a),
{
    match a {
        Auth::Key { .. } => push_str(s, "key"),
        Auth::Agent => push_str(s, "agent"),
    }
}

fn push_policy_label(s: &mut String, p: HostKeyPolicy)
    ensures
        final(s)@ == old(s)@ + policy_label(p),
{
    match p {
        HostKeyPolicy::Strict => push_str(s, "strict"),
        HostKeyPolicy::AcceptNew => push_str(s, "accept-new"),
    }
}

fn host_port_string(c: &SshContext) -> (r: String)
    ensures
        r@ == host_port(*c),
{
    let mut r = String::new();
    push_str(&mut r, c.host.as_str());
    push_char(&mut r, ':');
    push_u64(&mut r, c.port as u64);
    r
}

fn list_header() -> (r: String)
    ensures
        r@ == context_list_header(),
{
    let mut r = String::new();
    push_padded(&mut r, "NAME", 16);
    push_str(&mut r, " ");
    push_padded(&mut r, "HOST", 24);
    push_str(&mut r, " ");
    push_padded(&mut r, "USER", 12);
    push_str(&mut r, " ");
    push_padded(&mut r, "AUTH", 8);
    push_str(&mut r, " POLICY");
    r
}

fn list_row(name: &String, c: &SshContext) -> (r: String)
    ensures
        r@ == context_list_row(name@, *c),
{
    let mut r = String::new();
    push_padded(&mut r, name.as_str(), 16);
    push_str(&mut r, " ");
    let hp = host_port_string(c);
    push_padded(&mut r, hp.as_str(), 24);
    push_str(&mut r, " ");
    push_padded(&mut r, c.user.as_str(), 12);
    push_str(&mut r, " ");
    let mut a = String::new();
    push_auth_label(&mut a, &c.auth);
    push_padded(&mut r, a.as_str(), 8);
    push_str(&mut r, " ");
    push_policy_label(&mut r, c.host_key_policy);
    r
}

/// The listing of all contexts, in name order.
pub open spec fn context_listing(f: ContextsFile) -> Seq<Seq<char>> {
    if f.entries_view().len() == 0 {
        seq!["no contexts (add one with: agentssh context add ...)"@]
    } else {
        seq![context_list_header()] + f.entries_view().map_values(
            |e: (String, SshContext)| context_list_row(e.0@, e.1),
        )
    }
}

/// `context list`: a header and one row per context, in name order.
pub fn list_contexts(file: &ContextsFile) -> (r: Vec<String>)
    ensures
        lines_view(r@) == context_listing(*file),
{
    proof {
        use_type_invariant(file);
    }
    let mut lines: Vec<String> = Vec::new();
    if file.is_empty() {
        lines.push(copy_string("no contexts (add one with: agentssh context add ...)"));
        return lines;
    }
    lines.push(list_header());
    let ghost rows = file.entries_view().map_values(
        |e: (String, SshContext)| context_list_row(e.0@, e.1),
    );
    let mut i: usize = 0;
    while i < file.len()
        invariant
            i <= file.entries_view().len(),
            file.wf(),
            rows == file.entries_view().map_values(
                |e: (String, SshContext)| context_list_row(e.0@, e.1),
            ),
            lines_view(lines@) == seq![context_list_header()] + rows.take(i as int),
        decreases file.entries_view().len() - i,
    {
        let (name, c) = file.entry(i);
        let row = list_row(name, c);
        let ghost before = lines@;
        lines.push(row);
        assert(lines_view(lines@) == lines_view(before).push(row@));
        assert(rows.take(i + 1) == rows.take(i as int).push(rows[i as int]));
        i += 1;
    }
    assert(rows.take(rows.len() as int) == rows);
    lines
}

fn show_lines(name: &str, c: &SshContext) -> (r: Vec<String>)
    ensures
        lines_view(r@) == context_show_lines(name@, *c),
{
    let mut v: Vec<String> = Vec::new();
    let mut l1 = String::new();
    push_str(&mut l1, "name            ");
    push_str(&mut l1, name);
    v.push(l1);
    let mut l2 = String::new();
    push_str(&mut l2, "host            ");
    let hp = host_port_string(c);
    push_str(&mut l2, hp.as_str());
    v.push(l2);
    let mut l3 = String::new();
    push_str(&mut l3, "user            ");
    push_str(&mut l3, c.user.as_str());
    v.push(l3);
    let mut l4 = String::new();
    match &c.auth {
        Auth::Key { path } => {
            push_str(&mut l4, "auth            key file at ");
            push_str(&mut l4, path.as_str());
        },
        Auth::Agent => push_str(&mut l4, "auth            ssh-agent"),
    }
    v.push(l4);
    let mut l5 = String::new();
    push_str(&mut l5, "host key policy ");
    push_policy_label(&mut l5, c.host_key_policy);
    v.push(l5);
    assert(lines_view(v@) =~= context_show_lines(name@, *c));
    v
}

/// Runs a `context` subcommand against the contexts file: `add` adds or
/// replaces, `remove` removes, `list` and `show` only read. It returns the
/// lines to print and whether the file must be saved.
pub fn apply_context_command(file: &mut ContextsFile, cmd: ContextCmd) -> (r: Result<
    ContextReport,
    ConfigError,
>)
    requires
        cmd matches ContextCmd::Add { key, agent, .. } ==> !(key is Some && agent),
    ensures
        match cmd {
            ContextCmd::Add { name, host, port, user, key, agent, host_key_policy } => {
                match key {
                    None if !agent => r == Err::<ContextReport, ConfigError>(ConfigError::MissingAuth)
                        && *final(file) == *old(file),
                    _ => {
                        let c = SshContext {
                            host,
                            port,
                            user,
                            auth: match key {
                                Some(p) => Auth::Key { path: p },
                                None => Auth::Agent,
                            },
                            host_key_policy: HostKeyPolicy::from_arg_spec(host_key_policy),
                        };
                        &&& final(file)@ == old(file)@.insert(name@, c)
                        &&& r matches Ok(rep) && rep.changed && lines_view(rep.lines@) == seq![
                            (if old(file)@.dom().contains(name@) {
                                "updated"@
                            } else {
                                "added"@
                            }) + " context '"@ + name@ + "'"@,
                        ]
                    },
                }
            },
            ContextCmd::List => {
                &&& *final(file) == *old(file)
                &&& r matches Ok(rep) && !rep.changed && lines_view(rep.lines@) == context_listing(
                    *old(file),
                )
            },
            ContextCmd::Show { name } => {
                &&& *final(file) == *old(file)
                &&& if old(file)@.dom().contains(name@) {
                    r matches Ok(rep) && !rep.changed && lines_view(rep.lines@)
                        == context_show_lines(name@, old(file)@[name@])
                } else {
                    r matches Err(ConfigError::UnknownContext(n)) && n@ == name@
                }
            },
            ContextCmd::Remove { name } => {
                &&& final(file)@ == old(file)@.remove(name@)
                &&& if old(file)@.dom().contains(name@) {
                    r matches Ok(rep) && rep.changed && lines_view(rep.lines@) == seq![
                        "removed context '"@ + name@ + "'"@,
                    ]
                } else {
                    r matches Err(ConfigError::UnknownContext(n)) && n@ == name@
                }
            },
        },
{
    match cmd {
        ContextCmd::Add { name, host, port, user, key, agent, host_key_policy } => {
            let auth = match auth_from_flags(key, agent) {
                Ok(a) => a,
                Err(e) => {
                    return Err(e);
                },
            };
            let c = SshContext {
                host,
                port,
                user,
                auth,
                host_key_policy: HostKeyPolicy::from_arg(host_key_policy),
            };
            let mut msg = String::new();
            let label = copy_string(name.as_str());
            let replaced = file.insert(name, c);
            if replaced {
                push_str(&mut msg, "updated");
            } else {
                push_str(&mut msg, "added");
            }
            push_str(&mut msg, " context '");
            push_str(&mut msg, label.as_str());
            push_str(&mut msg, "'");
            let mut lines = Vec::new();
            lines.push(msg);
            assert(lines_view(lines@) =~= seq![msg@]);
            Ok(ContextReport { lines, changed: true })
        },
        ContextCmd::List => {
            let lines = list_contexts(file);
            Ok(ContextReport { lines, changed: false })
        },
        ContextCmd::Show { name } => {
            match file.get(name.as_str()) {
                Some(c) => {
                    let lines = show_lines(name.as_str(), c);
                    Ok(ContextReport { lines, changed: false })
                },
                None => Err(ConfigError::UnknownContext(name)),
            }
        },
        ContextCmd::Remove { name } => {
            if !file.remove(name.as_str()) {
                return Err(ConfigError::UnknownContext(name));
            }
            let mut msg = String::new();
            push_str(&mut msg, "removed context '");
            push_str(&mut msg, name.as_str());
            push_str(&mut msg, "'");
            let mut lines = Vec::new();
            lines.push(msg);
            assert(lines_view(lines@) =~= seq![msg@]);
            Ok(ContextReport { lines, changed: true })
        },
    }
}

// ---------------------------------------------------------------------------
// laws of the contexts file
// ---------------------------------------------------------------------------

/// Read after write: once `context add` has stored a context under a name, a
/// session asking for that name gets exactly that context, and every other
/// name keeps what it had.
pub proof fn law_add_then_get(old_map: Map<Seq<char>, SshContext>, name: Seq<char>, c: SshContext, other: Seq<char>)
    requires
        other != name,
    ensures
        old_map.insert(name, c).dom().contains(name),
        old_map.insert(name, c)[name] == c,
        old_map.insert(name, c).dom().contains(other) == old_map.dom().contains(other),
        old_map.dom().contains(other) ==> old_map.insert(name, c)[other] == old_map[other],
{
}

/// After `context remove` the name is gone, and every other name keeps what
/// it had.
pub proof fn law_remove_then_get(old_map: Map<Seq<char>, SshContext>, name: Seq<char>, other: Seq<char>)
    requires
        other != name,
    ensures
        !old_map.remove(name).dom().contains(name),
        old_map.remove(name).dom().contains(other) == old_map.dom().contains(other),
        old_map.dom().contains(other) ==> old_map.remove(name)[other] == old_map[other],
{
}

/// Adding a context twice under one name keeps only the second: `add`
/// replaces.
pub proof fn law_add_replaces(old_map: Map<Seq<char>, SshContext>, name: Seq<char>, c1: SshContext, c2: SshContext)
    ensures
        old_map.insert(name, c1).insert(name, c2) == old_map.insert(name, c2),
{
    assert(old_map.insert(name, c1).insert(name, c2) =~= old_map.insert(name, c2));
}

/// `context list` shows every context once, in name order.
pub proof fn law_listing_sorted(f: ContextsFile)
    requires
        f.wf(),
    ensures
        strictly_sorted(entry_names(f.entries_view())),
        forall|i: int|
            0 <= i < f.entries_view().len() ==> f@.dom().contains(#[trigger] f.entries_view()[i].0@),
        forall|k: Seq<char>|
            #[trigger] f@.dom().contains(k) ==> exists|i: int|
                0 <= i < f.entries_view().len() && #[trigger] f.entries_view()[i].0@ == k,
{
    f.lemma_entries();
    assert forall|k: Seq<char>| #[trigger] f@.dom().contains(k) implies exists|i: int|
        0 <= i < f.entries_view().len() && #[trigger] f.entries_view()[i].0@ == k by {
        f.lemma_dom(k);
    }
}

} // verus!
