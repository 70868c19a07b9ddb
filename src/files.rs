//! The registry of locally hosted files and directories, and how a target
//! is resolved against it.
use vstd::prelude::*;

use crate::ipc::{opt_text, texts, FileTarget, ServerError, Target, TargetView};

verus! {

/// The key of a hosted entry: its nickname if it has one, else its path.
#[derive(Debug, Clone, PartialEq, Eq, Hash)]
pub enum RegistryKey {
    Nickname(String),
    Path(String),
}

pub enum KeyView {
    Nickname(Seq<char>),
    Path(Seq<char>),
}

impl View for RegistryKey {
    type V = KeyView;

    open spec fn view(&self) -> KeyView {
        match self {
            RegistryKey::Nickname(n) => KeyView::Nickname(n@),
            RegistryKey::Path(p) => KeyView::Path(p@),
        }
    }
}

impl RegistryKey {
    /// Whether two keys are the same key.
    pub fn same(&self, other: &RegistryKey) -> (r: bool)
        ensures
            r == (self@ == other@),
    {
        match (self, other) {
            (RegistryKey::Nickname(a), RegistryKey::Nickname(b)) => *a == *b,
            (RegistryKey::Path(a), RegistryKey::Path(b)) => *a == *b,
            _ => false,
        }
    }

    pub fn copy(&self) -> (r: RegistryKey)
        ensures
            r@ == self@,
    {
        match self {
            RegistryKey::Nickname(n) => RegistryKey::Nickname(n.clone()),
            RegistryKey::Path(p) => RegistryKey::Path(p.clone()),
        }
    }
}

/// What the filesystem holds at a path, as probed before hosting it.
#[derive(Debug, Clone, Copy, PartialEq, Eq, Hash)]
pub enum PathKind {
    Missing,
    File,
    Directory,
}

/// A hosted file or directory: its key, its path and its tags.
#[derive(Debug)]
pub struct HostedEntry {
    key: RegistryKey,
    path: String,
    tags: Vec<String>,
}

pub struct EntryView {
    pub key: KeyView,
    pub path: Seq<char>,
    pub tags: Seq<Seq<char>>,
}

impl View for HostedEntry {
    type V = EntryView;

    closed spec fn view(&self) -> EntryView {
        EntryView { key: self.key@, path: self.path@, tags: texts(self.tags@) }
    }
}

/// A copy of a list of strings.
pub fn copy_texts(v: &Vec<String>) -> (r: Vec<String>)
    ensures
        r@ == v@,
{
    let mut out: Vec<String> = Vec::new();
    let mut i: usize = 0;
    while i < v.len()
        invariant
            i <= v@.len(),
            out@ == v@.take(i as int),
        decreases v@.len() - i,
    {
        out.push(v[i].clone());
        i = i + 1;
        assert(out@ =~= v@.take(i as int));
    }
    assert(v@.take(v@.len() as int) =~= v@);
    out
}

impl HostedEntry {
    pub fn key(&self) -> (r: &RegistryKey)
        ensures
            r@ == self@.key,
    {
        &self.key
    }

    pub fn path(&self) -> (r: &String)
        ensures
            r@ == self@.path,
    {
        &self.path
    }

    pub fn tags(&self) -> (r: &Vec<String>)
        ensures
            texts(r@) == self@.tags,
    {
        &self.tags
    }

    pub fn copy(&self) -> (r: HostedEntry)
        ensures
            r@ == self@,
    {
        let tags = copy_texts(&self.tags);
        HostedEntry { key: self.key.copy(), path: self.path.clone(), tags }
    }
}

/// The key under which a target is hosted.
pub open spec fn key_of(t: FileTarget) -> KeyView {
    match t {
        FileTarget::File { path, nickname } => match nickname {
            Some(n) => KeyView::Nickname(n@),
            None => KeyView::Path(path@),
        },
        FileTarget::Dir { path } => KeyView::Path(path@),
    }
}

/// The entry that hosting `t` with `tags` makes.
pub open spec fn entry_of(t: FileTarget, tags: Seq<String>) -> EntryView {
    EntryView { key: key_of(t), path: t.path_view(), tags: texts(tags) }
}

/// Whether every tag of `query` is among `tags`.
pub open spec fn has_all_tags(tags: Seq<Seq<char>>, query: Seq<Seq<char>>) -> bool {
    forall|i: int| 0 <= i < query.len() ==> tags.contains(#[trigger] query[i])
}

/// Whether an entry answers a target: a nickname matches the entry's
/// nickname exactly, a tag set matches when all its tags are on the entry.
pub open spec fn matches(e: EntryView, t: TargetView) -> bool {
    match t {
        TargetView::Nickname(n) => e.key == KeyView::Nickname(n),
        TargetView::Tags(q) => has_all_tags(e.tags, q),
    }
}

pub open spec fn matching(t: TargetView) -> spec_fn(EntryView) -> bool {
    |e: EntryView| matches(e, t)
}

pub open spec fn not_matching(t: TargetView) -> spec_fn(EntryView) -> bool {
    |e: EntryView| !matches(e, t)
}

pub open spec fn other_key(k: KeyView) -> spec_fn(EntryView) -> bool {
    |e: EntryView| e.key != k
}

/// The registry after hosting `e`: an entry with the same key is replaced.
pub open spec fn host_spec(s: Seq<EntryView>, e: EntryView) -> Seq<EntryView> {
    s.filter(other_key(e.key)).push(e)
}

/// The registry after removing every entry that matches `t`.
pub open spec fn unhost_spec(s: Seq<EntryView>, t: TargetView) -> Seq<EntryView> {
    s.filter(not_matching(t))
}

pub open spec fn key_views(v: Seq<RegistryKey>) -> Seq<KeyView> {
    v.map_values(|k: RegistryKey| k@)
}

pub open spec fn entry_views(v: Seq<HostedEntry>) -> Seq<EntryView> {
    v.map_values(|e: HostedEntry| e@)
}

pub open spec fn keys_of(s: Seq<EntryView>) -> Seq<KeyView> {
    s.map_values(|e: EntryView| e.key)
}

pub open spec fn pair_views<'a>(v: Seq<(RegistryKey, &'a HostedEntry)>) -> Seq<(KeyView, EntryView)> {
    v.map_values(|p: (RegistryKey, &'a HostedEntry)| (p.0@, p.1@))
}

pub open spec fn keyed(s: Seq<EntryView>) -> Seq<(KeyView, EntryView)> {
    s.map_values(|e: EntryView| (e.key, e))
}

/// The entries that match `t`, each with its key, in registry order.
pub open spec fn resolve_pairs_spec(s: Seq<EntryView>, t: TargetView) -> Seq<(KeyView, EntryView)> {
    keyed(s.filter(matching(t)))
}

/// The keys of the entries that match `t`, in registry order.
pub open spec fn resolve_spec(s: Seq<EntryView>, t: TargetView) -> Seq<KeyView> {
    keys_of(s.filter(matching(t)))
}

pub open spec fn keys_unique(s: Seq<EntryView>) -> bool {
    forall|i: int, j: int| 0 <= i < j < s.len() ==> s[i].key != s[j].key
}

/// Whether `i` is the first entry of `s` that matches `t`.
pub open spec fn is_first_match(s: Seq<EntryView>, t: TargetView, i: int) -> bool {
    &&& 0 <= i < s.len()
    &&& matches(s[i], t)
    &&& forall|j: int| 0 <= j < i ==> !matches(#[trigger] s[j], t)
}

pub open spec fn no_match(s: Seq<EntryView>, t: TargetView) -> bool {
    forall|i: int| 0 <= i < s.len() ==> !matches(#[trigger] s[i], t)
}

/// The error hosting `t` gives when the filesystem holds `kind` at its path:
/// a file must exist, a directory must be a directory.
pub open spec fn host_error(t: FileTarget, kind: PathKind) -> Option<ServerError> {
    match kind {
        PathKind::Missing => match t {
            FileTarget::Dir { .. } => Some(ServerError::NotADirectory),
            FileTarget::File { .. } => Some(ServerError::PathNotFound),
        },
        PathKind::File => match t {
            FileTarget::Dir { .. } => Some(ServerError::NotADirectory),
            FileTarget::File { .. } => None,
        },
        PathKind::Directory => None,
    }
}

/// The path of the first entry that matches `t`: what a fetch of `t` reads.
pub open spec fn fetch_path_spec(s: Seq<EntryView>, t: TargetView) -> Option<Seq<char>> {
    if exists|i: int| is_first_match(s, t, i) {
        Some(s[choose|i: int| is_first_match(s, t, i)].path)
    } else {
        None
    }
}

/// The path a push of `t` writes to: that of the first entry matching `t`,
/// else `fresh`.
pub open spec fn store_path_spec(s: Seq<EntryView>, t: TargetView, fresh: Seq<char>) -> Seq<char> {
    match fetch_path_spec(s, t) {
        Some(p) => p,
        None => fresh,
    }
}

/// The entry a push of `t` creates at `path` where nothing matches `t`.
pub open spec fn pushed_entry(t: TargetView, path: Seq<char>) -> EntryView {
    match t {
        TargetView::Nickname(n) => EntryView {
            key: KeyView::Nickname(n),
            path,
            tags: Seq::empty(),
        },
        TargetView::Tags(q) => EntryView { key: KeyView::Path(path), path, tags: q },
    }
}

/// The registry once a push of `t` to `path` has been written in full.
pub open spec fn commit_spec(s: Seq<EntryView>, t: TargetView, path: Seq<char>) -> Seq<EntryView> {
    if no_match(s, t) {
        host_spec(s, pushed_entry(t, path))
    } else {
        s
    }
}

/// One step of a sequence of hosting commands, on the registry's model.
pub enum RegistryOp {
    Host(EntryView),
    Unhost(TargetView),
}

/// The registry after one step.
pub open spec fn apply_op(s: Seq<EntryView>, op: RegistryOp) -> Seq<EntryView> {
    match op {
        RegistryOp::Host(e) => host_spec(s, e),
        RegistryOp::Unhost(t) => unhost_spec(s, t),
    }
}

/// The registry after applying `ops` in order to `s`.
pub open spec fn apply_ops(s: Seq<EntryView>, ops: Seq<RegistryOp>) -> Seq<EntryView>
    decreases ops.len(),
{
    if ops.len() == 0 {
        s
    } else {
        apply_op(apply_ops(s, ops.drop_last()), ops.last())
    }
}

/// The registry after applying `ops` in order to an empty one.
pub open spec fn replay(ops: Seq<RegistryOp>) -> Seq<EntryView> {
    apply_ops(Seq::empty(), ops)
}

pub proof fn lemma_apply_single(s: Seq<EntryView>, op: RegistryOp)
    ensures
        apply_ops(s, Seq::empty()) == s,
        apply_ops(s, seq![op]) == apply_op(s, op),
{
    assert(seq![op].drop_last() =~= Seq::<RegistryOp>::empty());
    assert(seq![op].last() == op);
}

/// The steps an unhost of each of `ts` in turn takes.
pub open spec fn unhost_ops(ts: Seq<TargetView>) -> Seq<RegistryOp> {
    ts.map_values(|t: TargetView| RegistryOp::Unhost(t))
}

/// Applying two runs of steps one after the other is applying their
/// concatenation. With `lemma_replay_net_effect`, a stream of commands on a
/// new registry leaves exactly the entries that survive all its steps.
pub proof fn lemma_apply_ops_append(s: Seq<EntryView>, a: Seq<RegistryOp>, b: Seq<RegistryOp>)
    ensures
        apply_ops(apply_ops(s, a), b) == apply_ops(s, a + b),
    decreases b.len(),
{
    if b.len() == 0 {
        assert(a + b =~= a);
    } else {
        lemma_apply_ops_append(s, a, b.drop_last());
        assert((a + b).drop_last() =~= a + b.drop_last());
        assert((a + b).last() == b.last());
    }
}

/// Unhosting each target in turn is a run of unhost steps.
pub proof fn lemma_unhost_ops(s: Seq<EntryView>, ts: Seq<TargetView>)
    ensures
        apply_ops(s, unhost_ops(ts)) == fold_unhost(s, ts),
    decreases ts.len(),
{
    if ts.len() > 0 {
        lemma_unhost_ops(s, ts.drop_last());
        assert(unhost_ops(ts).drop_last() =~= unhost_ops(ts.drop_last()));
    }
}

/// The registry after unhosting each target in turn.
pub open spec fn fold_unhost(s: Seq<EntryView>, ts: Seq<TargetView>) -> Seq<EntryView>
    decreases ts.len(),
{
    if ts.len() == 0 {
        s
    } else {
        unhost_spec(fold_unhost(s, ts.drop_last()), ts.last())
    }
}

/// Whether `op` takes entry `e` out: a later host under its key, or an
/// unhost of a target it matches.
pub open spec fn overrides(op: RegistryOp, e: EntryView) -> bool {
    match op {
        RegistryOp::Host(f) => f.key == e.key,
        RegistryOp::Unhost(t) => matches(e, t),
    }
}

/// Whether `e` was hosted by some step of `ops` and no later step took it out.
pub open spec fn survives(ops: Seq<RegistryOp>, e: EntryView) -> bool {
    exists|i: int|
        0 <= i < ops.len() && ops[i] == RegistryOp::Host(e) && forall|j: int|
            i < j < ops.len() ==> !overrides(#[trigger] ops[j], e)
}

proof fn lemma_survives_step(ops: Seq<RegistryOp>, e: EntryView)
    requires
        ops.len() > 0,
    ensures
        survives(ops, e) <==> (ops.last() == RegistryOp::Host(e) || (survives(ops.drop_last(), e)
            && !overrides(ops.last(), e))),
{
    let n = ops.len() - 1;
    let d = ops.drop_last();
    if survives(ops, e) {
        let i = choose|i: int|
            0 <= i < ops.len() && ops[i] == RegistryOp::Host(e) && forall|j: int|
                i < j < ops.len() ==> !overrides(#[trigger] ops[j], e);
        if i < n {
            assert(d[i] == ops[i]);
            assert forall|j: int| i < j < d.len() implies !overrides(#[trigger] d[j], e) by {
                assert(d[j] == ops[j]);
            }
            assert(!overrides(ops[n], e));
        }
    }
    if ops.last() == RegistryOp::Host(e) {
        assert(ops[n] == RegistryOp::Host(e));
    } else if survives(d, e) && !overrides(ops.last(), e) {
        let i = choose|i: int|
            0 <= i < d.len() && d[i] == RegistryOp::Host(e) && forall|j: int|
                i < j < d.len() ==> !overrides(#[trigger] d[j], e);
        assert(ops[i] == d[i]);
        assert forall|j: int| i < j < ops.len() implies !overrides(#[trigger] ops[j], e) by {
            if j < n {
                assert(ops[j] == d[j]);
            }
        }
    }
}

proof fn lemma_filter_contains_iff(s: Seq<EntryView>, p: spec_fn(EntryView) -> bool, e: EntryView)
    ensures
        s.filter(p).contains(e) <==> (s.contains(e) && p(e)),
{
    if s.filter(p).contains(e) {
        s.lemma_filter_contains_rev(p, e);
        let k = choose|k: int| 0 <= k < s.filter(p).len() && s.filter(p)[k] == e;
        s.lemma_filter_pred(p, k);
    }
    if s.contains(e) && p(e) {
        let k = choose|k: int| 0 <= k < s.len() && s[k] == e;
        s.lemma_filter_contains(p, k);
    }
}

proof fn lemma_host_keeps_unique(s: Seq<EntryView>, e: EntryView)
    requires
        keys_unique(s),
    ensures
        keys_unique(host_spec(s, e)),
{
    lemma_filter_keeps_unique(s, other_key(e.key));
    let f = s.filter(other_key(e.key));
    assert forall|a: int| 0 <= a < f.len() implies f[a].key != e.key by {
        s.lemma_filter_pred(other_key(e.key), a);
    }
}

/// Replaying any sequence of hosts and unhosts from an empty registry keeps
/// one entry per key and leaves exactly the entries that were hosted and not
/// taken out afterwards: the last host under a key wins, and an unhost
/// removes every entry it matches.
pub proof fn lemma_replay_net_effect(ops: Seq<RegistryOp>, e: EntryView)
    ensures
        keys_unique(replay(ops)),
        replay(ops).contains(e) <==> survives(ops, e),
    decreases ops.len(),
{
    if ops.len() > 0 {
        let d = ops.drop_last();
        let r = replay(d);
        lemma_replay_net_effect(d, e);
        assert(replay(ops) == apply_op(r, ops.last()));
        lemma_survives_step(ops, e);
        match ops.last() {
            RegistryOp::Host(f) => {
                lemma_host_keeps_unique(r, f);
                lemma_filter_contains_iff(r, other_key(f.key), e);
                let g = r.filter(other_key(f.key));
                assert(g.push(f).contains(e) <==> (g.contains(e) || e == f)) by {
                    if g.push(f).contains(e) && e != f {
                        let k = choose|k: int| 0 <= k < g.push(f).len() && g.push(f)[k] == e;
                        assert(g[k] == e);
                    }
                    if g.contains(e) {
                        let k = choose|k: int| 0 <= k < g.len() && g[k] == e;
                        assert(g.push(f)[k] == e);
                    }
                    if e == f {
                        assert(g.push(f)[g.len() as int] == e);
                    }
                }
            },
            RegistryOp::Unhost(t) => {
                lemma_filter_keeps_unique(r, not_matching(t));
                lemma_filter_contains_iff(r, not_matching(t), e);
            },
        }
    }
}

proof fn lemma_filter_without_key(s: Seq<EntryView>, k: KeyView)
    requires
        forall|j: int| 0 <= j < s.len() ==> (#[trigger] s[j]).key != k,
    ensures
        s.filter(other_key(k)) == s,
    decreases s.len(),
{
    reveal(Seq::filter);
    if s.len() > 0 {
        let d = s.drop_last();
        assert forall|j: int| 0 <= j < d.len() implies (#[trigger] d[j]).key != k by {
            assert(d[j] == s[j]);
        }
        lemma_filter_without_key(d, k);
        assert(d.push(s.last()) =~= s);
    }
}

proof fn lemma_filter_drops_one(s: Seq<EntryView>, k: KeyView, i: int)
    requires
        keys_unique(s),
        0 <= i < s.len(),
        s[i].key == k,
    ensures
        s.filter(other_key(k)).len() == s.len() - 1,
    decreases s.len(),
{
    reveal(Seq::filter);
    let d = s.drop_last();
    if i == s.len() - 1 {
        assert forall|j: int| 0 <= j < d.len() implies (#[trigger] d[j]).key != k by {
            assert(d[j] == s[j]);
        }
        lemma_filter_without_key(d, k);
    } else {
        assert(d[i] == s[i]);
        assert(keys_unique(d));
        lemma_filter_drops_one(d, k, i);
        assert(s.last().key != k);
    }
}

/// Hosting under a key that is already hosted replaces that entry: the
/// number of entries stays the same. Under a new key it grows by one.
pub proof fn lemma_host_count(s: Seq<EntryView>, e: EntryView)
    requires
        keys_unique(s),
    ensures
        (exists|i: int| 0 <= i < s.len() && s[i].key == e.key) ==> host_spec(s, e).len()
            == s.len(),
        (forall|i: int| 0 <= i < s.len() ==> s[i].key != e.key) ==> host_spec(s, e).len() == s.len()
            + 1,
{
    if exists|i: int| 0 <= i < s.len() && s[i].key == e.key {
        let i = choose|i: int| 0 <= i < s.len() && s[i].key == e.key;
        lemma_filter_drops_one(s, e.key, i);
    } else {
        assert forall|j: int| 0 <= j < s.len() implies (#[trigger] s[j]).key != e.key by {}
        lemma_filter_without_key(s, e.key);
    }
}

/// Hosting an entry again under its key with a superset of its tags keeps
/// it in every tag match it was in.
pub proof fn lemma_rehost_more_tags(first: EntryView, second: EntryView, query: Seq<Seq<char>>)
    requires
        first.key == second.key,
        forall|i: int| 0 <= i < first.tags.len() ==> second.tags.contains(#[trigger] first.tags[i]),
        matches(first, TargetView::Tags(query)),
    ensures
        matches(second, TargetView::Tags(query)),
{
    assert forall|i: int| 0 <= i < query.len() implies second.tags.contains(#[trigger] query[i]) by {
        let j = choose|j: int| 0 <= j < first.tags.len() && first.tags[j] == query[i];
        assert(second.tags.contains(first.tags[j]));
    }
}

proof fn lemma_first_match_unique(s: Seq<EntryView>, t: TargetView, i: int, j: int)
    requires
        is_first_match(s, t, i),
        is_first_match(s, t, j),
    ensures
        i == j,
{
    if i < j {
        assert(!matches(s[i], t));
    } else if j < i {
        assert(!matches(s[j], t));
    }
}

proof fn lemma_filter_idempotent(s: Seq<EntryView>, p: spec_fn(EntryView) -> bool)
    ensures
        s.filter(p).filter(p) == s.filter(p),
    decreases s.len(),
{
    reveal(Seq::filter);
    if s.len() > 0 {
        let d = s.drop_last();
        lemma_filter_idempotent(d, p);
        if p(s.last()) {
            d.filter(p).lemma_filter_push(s.last(), p);
        }
    }
}

/// Unhosting a nickname right after hosting a file under it leaves no
/// entry that the nickname matches.
pub proof fn lemma_unhost_after_host(
    s: Seq<EntryView>,
    path: Seq<char>,
    nickname: Seq<char>,
    tags: Seq<Seq<char>>,
)
    ensures
        no_match(
            unhost_spec(
                host_spec(s, EntryView { key: KeyView::Nickname(nickname), path, tags }),
                TargetView::Nickname(nickname),
            ),
            TargetView::Nickname(nickname),
        ),
{
    let t = TargetView::Nickname(nickname);
    let h = host_spec(s, EntryView { key: KeyView::Nickname(nickname), path, tags });
    assert forall|i: int| 0 <= i < unhost_spec(h, t).len() implies !matches(
        #[trigger] unhost_spec(h, t)[i],
        t,
    ) by {
        h.lemma_filter_pred(not_matching(t), i);
    }
}

/// Last write wins: hosting twice under one key leaves only the second
/// entry, path and tags in full, as if the first had never been hosted.
pub proof fn lemma_host_replaces(s: Seq<EntryView>, first: EntryView, second: EntryView)
    requires
        first.key == second.key,
    ensures
        host_spec(host_spec(s, first), second) == host_spec(s, second),
{
    let p = other_key(second.key);
    s.filter(p).lemma_filter_push(first, p);
    lemma_filter_idempotent(s, p);
}

/// Adding a tag to an entry keeps it in every tag match it was in.
pub proof fn lemma_tags_monotonic(e: EntryView, query: Seq<Seq<char>>, tag: Seq<char>)
    requires
        matches(e, TargetView::Tags(query)),
    ensures
        matches(EntryView { tags: e.tags.push(tag), ..e }, TargetView::Tags(query)),
{
    assert forall|i: int| 0 <= i < query.len() implies e.tags.push(tag).contains(
        #[trigger] query[i],
    ) by {
        let j = choose|j: int| 0 <= j < e.tags.len() && e.tags[j] == query[i];
        assert(e.tags.push(tag)[j] == query[i]);
    }
}

/// A push of `t` followed by a fetch of `t` reads the path the push wrote.
pub proof fn lemma_push_then_fetch(s: Seq<EntryView>, t: TargetView, fresh: Seq<char>)
    requires
        keys_unique(s),
    ensures
        fetch_path_spec(commit_spec(s, t, store_path_spec(s, t, fresh)), t) == Some(
            store_path_spec(s, t, fresh),
        ),
{
    let p = store_path_spec(s, t, fresh);
    if !no_match(s, t) {
        let k = choose|k: int| 0 <= k < s.len() && matches(s[k], t);
        lemma_some_first_match(s, t, k);
    } else {
        let e = pushed_entry(t, p);
        let f = s.filter(other_key(e.key));
        let s2 = f.push(e);
        if let TargetView::Tags(q) = t {
            assert forall|i: int| 0 <= i < q.len() implies q.contains(#[trigger] q[i]) by {}
        }
        assert(matches(e, t));
        assert forall|j: int| 0 <= j < f.len() implies !matches(#[trigger] s2[j], t) by {
            assert(s2[j] == f[j]);
            assert(f.contains(f[j]));
            s.lemma_filter_contains_rev(other_key(e.key), f[j]);
        }
        assert(is_first_match(s2, t, f.len() as int));
        let c = choose|i: int| is_first_match(s2, t, i);
        lemma_first_match_unique(s2, t, c, f.len() as int);
    }
}

proof fn lemma_some_first_match(s: Seq<EntryView>, t: TargetView, k: int)
    requires
        0 <= k < s.len(),
        matches(s[k], t),
    ensures
        exists|i: int| is_first_match(s, t, i),
    decreases k,
{
    if exists|j: int| 0 <= j < k && matches(s[j], t) {
        let j = choose|j: int| 0 <= j < k && matches(s[j], t);
        lemma_some_first_match(s, t, j);
    } else {
        assert(is_first_match(s, t, k));
    }
}

proof fn lemma_filter_keeps_unique(s: Seq<EntryView>, p: spec_fn(EntryView) -> bool)
    requires
        keys_unique(s),
    ensures
        keys_unique(s.filter(p)),
    decreases s.len(),
{
    reveal(Seq::filter);
    if s.len() > 0 {
        let d = s.drop_last();
        assert(keys_unique(d));
        lemma_filter_keeps_unique(d, p);
        let f = d.filter(p);
        if p(s.last()) {
            assert forall|a: int| 0 <= a < f.len() implies f[a].key != s.last().key by {
                assert(f.contains(f[a]));
                d.lemma_filter_contains_rev(p, f[a]);
                let j = choose|j: int| 0 <= j < d.len() && d[j] == f[a];
                assert(s[j] == f[a]);
            }
            assert(s.filter(p) == f.push(s.last()));
        }
    }
}

/// Whether every tag of `query` is among `tags`.
pub fn tags_cover(tags: &Vec<String>, query: &Vec<String>) -> (r: bool)
    ensures
        r == has_all_tags(texts(tags@), texts(query@)),
{
    let ghost have = texts(tags@);
    let mut i: usize = 0;
    while i < query.len()
        invariant
            i <= query@.len(),
            have == texts(tags@),
            forall|a: int| 0 <= a < i ==> have.contains(#[trigger] texts(query@)[a]),
        decreases query@.len() - i,
    {
        let mut found = false;
        let mut j: usize = 0;
        while j < tags.len()
            invariant
                j <= tags@.len(),
                i < query@.len(),
                have == texts(tags@),
                found == exists|b: int| 0 <= b < j && have[b] == query@[i as int]@,
            decreases tags@.len() - j,
        {
            if tags[j] == query[i] {
                found = true;
                assert(have[j as int] == query@[i as int]@);
            }
            j = j + 1;
        }
        assert(texts(query@)[i as int] == query@[i as int]@);
        if !found {
            assert(!have.contains(texts(query@)[i as int]));
            return false;
        }
        let ghost b = choose|b: int| 0 <= b < j && have[b] == query@[i as int]@;
        assert(have.contains(texts(query@)[i as int]));
        i = i + 1;
    }
    assert(texts(query@).len() == query@.len());
    true
}

/// Whether an entry answers a target.
pub fn entry_matches(e: &HostedEntry, t: &Target) -> (r: bool)
    ensures
        r == matches(e@, t@),
{
    match t {
        Target::Nickname(n) => match &e.key {
            RegistryKey::Nickname(k) => *k == *n,
            RegistryKey::Path(_) => false,
        },
        Target::Tags(query) => tags_cover(&e.tags, query),
    }
}

/// The files and directories this daemon serves, in the order they were
/// last hosted. No two entries share a key.
pub struct FileRegistry {
    entries: Vec<HostedEntry>,
}

impl View for FileRegistry {
    type V = Seq<EntryView>;

    closed spec fn view(&self) -> Seq<EntryView> {
        entry_views(self.entries@)
    }
}

impl FileRegistry {
    pub open spec fn wf(&self) -> bool {
        keys_unique(self@)
    }

    pub fn new() -> (r: FileRegistry)
        ensures
            r@ == Seq::<EntryView>::empty(),
            r.wf(),
    {
        let r = FileRegistry { entries: Vec::new() };
        assert(r@ =~= Seq::<EntryView>::empty());
        r
    }

    pub fn count(&self) -> (r: usize)
        ensures
            r == self@.len(),
    {
        self.entries.len()
    }

    pub fn entry(&self, i: usize) -> (r: &HostedEntry)
        requires
            i < self@.len(),
        ensures
            r@ == self@[i as int],
    {
        &self.entries[i]
    }

    /// The first entry that matches `t`, if any.
    pub fn first_match(&self, t: &Target) -> (r: Option<usize>)
        ensures
            match r {
                Some(i) => is_first_match(self@, t@, i as int),
                None => no_match(self@, t@),
            },
    {
        let mut i: usize = 0;
        while i < self.entries.len()
            invariant
                i <= self@.len(),
                self@.len() == self.entries@.len(),
                forall|j: int| 0 <= j < i ==> !matches(#[trigger] self@[j], t@),
            decreases self@.len() - i,
        {
            if entry_matches(&self.entries[i], t) {
                return Some(i);
            }
            i = i + 1;
        }
        None
    }

    /// Every entry that matches `t`, with its key, in registry order.
    pub fn resolve<'a>(&'a self, t: &Target) -> (r: Vec<(RegistryKey, &'a HostedEntry)>)
        ensures
            pair_views(r@) == resolve_pairs_spec(self@, t@),
    {
        let ghost s = self@;
        let mut out: Vec<(RegistryKey, &'a HostedEntry)> = Vec::new();
        let mut i: usize = 0;
        while i < self.entries.len()
            invariant
                s == self@,
                i <= s.len(),
                s.len() == self.entries@.len(),
                pair_views(out@) == keyed(s.take(i as int).filter(matching(t@))),
            decreases s.len() - i,
        {
            let e = &self.entries[i];
            let m = entry_matches(e, t);
            proof {
                assert(s.take(i as int + 1) =~= s.take(i as int).push(s[i as int]));
                s.take(i as int).lemma_filter_push(s[i as int], matching(t@));
                assert(s[i as int] == e@);
            }
            let ghost before = out@;
            if m {
                out.push((e.key.copy(), e));
                assert(pair_views(out@) =~= pair_views(before).push((e@.key, e@)));
                assert(pair_views(out@) =~= keyed(s.take(i as int + 1).filter(matching(t@))));
            }
            i = i + 1;
        }
        assert(s.take(s.len() as int) =~= s);
        out
    }

    /// The path a fetch of `t` reads: that of the first entry matching `t`.
    pub fn fetch_path(&self, t: &Target) -> (r: Option<String>)
        ensures
            opt_text(r) == fetch_path_spec(self@, t@),
    {
        match self.first_match(t) {
            Some(i) => {
                proof {
                    let c = choose|c: int| is_first_match(self@, t@, c);
                    lemma_first_match_unique(self@, t@, c, i as int);
                }
                assert(self.entries@[i as int]@ == self@[i as int]);
                Some(self.entries[i].path.clone())
            },
            None => None,
        }
    }

    /// The path a push of `t` is written to: that of the first entry
    /// matching `t`, else `fresh`.
    pub fn store_path(&self, t: &Target, fresh: String) -> (r: String)
        ensures
            r@ == store_path_spec(self@, t@, fresh@),
    {
        match self.fetch_path(t) {
            Some(p) => p,
            None => fresh,
        }
    }

    /// Records a push of `t` once its content is written at `path`: where
    /// no entry matches `t`, one that does is hosted at `path`.
    pub fn commit_store(&mut self, t: &Target, path: String)
        requires
            old(self).wf(),
        ensures
            final(self).wf(),
            final(self)@ == commit_spec(old(self)@, t@, path@),
    {
        if self.first_match(t).is_some() {
            return;
        }
        let ghost p = path@;
        let (target, tags) = match t {
            Target::Nickname(n) => {
                let tags: Vec<String> = Vec::new();
                assert(texts(tags@) =~= Seq::<Seq<char>>::empty());
                (FileTarget::File { path, nickname: Some(n.clone()) }, tags)
            },
            Target::Tags(q) => (FileTarget::File { path, nickname: None }, copy_texts(q)),
        };
        assert(entry_of(target, tags@) == pushed_entry(t@, p));
        let _ = self.host(&target, &tags, PathKind::File);
    }

    /// Drops the entries keyed `drop_key`, or, where there is none, those
    /// that match `t`; returns the keys dropped for `t`.
    fn retain_entries(&mut self, drop_key: Option<&RegistryKey>, t: Option<&Target>) -> (r: Vec<
        RegistryKey,
    >)
        requires
            drop_key is Some != t is Some,
        ensures
            ({
                let p = match drop_key {
                    Some(k) => other_key(k@),
                    None => not_matching(t.unwrap()@),
                };
                &&& final(self)@ == old(self)@.filter(p)
                &&& t is Some ==> key_views(r@) == resolve_spec(
                    old(self)@,
                    t.unwrap()@,
                )
            }),
    {
        let ghost s = self@;
        let ghost p = match drop_key {
            Some(k) => other_key(k@),
            None => not_matching(t.unwrap()@),
        };
        let mut kept: Vec<HostedEntry> = Vec::new();
        let mut removed: Vec<RegistryKey> = Vec::new();
        let mut i: usize = 0;
        while i < self.entries.len()
            invariant
                s == self@,
                i <= s.len(),
                s.len() == self.entries@.len(),
                drop_key is Some != t is Some,
                p == match drop_key {
                    Some(k) => other_key(k@),
                    None => not_matching(t.unwrap()@),
                },
                entry_views(kept@) == s.take(i as int).filter(p),
                t is Some ==> key_views(removed@) == keys_of(s.take(i as int).filter(
                    matching(t.unwrap()@),
                )),
            decreases s.len() - i,
        {
            let e = &self.entries[i];
            let keep = match drop_key {
                Some(k) => !e.key.same(k),
                None => !entry_matches(e, t.unwrap()),
            };
            proof {
                assert(s[i as int] == e@);
                assert(s.take(i as int + 1) =~= s.take(i as int).push(s[i as int]));
                s.take(i as int).lemma_filter_push(s[i as int], p);
                if t is Some {
                    s.take(i as int).lemma_filter_push(s[i as int], matching(t.unwrap()@));
                }
            }
            let ghost kb = kept@;
            let ghost rb = removed@;
            if keep {
                kept.push(e.copy());
                assert(entry_views(kept@) =~= entry_views(kb).push(e@));
                assert(entry_views(kept@) =~= s.take(i as int + 1).filter(p));
            } else {
                if t.is_some() {
                    removed.push(e.key.copy());
                    assert(key_views(removed@) =~= key_views(rb).push(e@.key));
                    assert(key_views(removed@) =~= keys_of(s.take(i as int + 1).filter(
                        matching(t.unwrap()@),
                    )));
                }
            }
            i = i + 1;
        }
        assert(s.take(s.len() as int) =~= s);
        self.entries = kept;
        removed
    }

    /// Hosts `target` with `tags`, given what the filesystem holds at its
    /// path. An entry with the same key is replaced.
    pub fn host(&mut self, target: &FileTarget, tags: &Vec<String>, kind: PathKind) -> (r: Result<
        RegistryKey,
        ServerError,
    >)
        requires
            old(self).wf(),
        ensures
            final(self).wf(),
            match host_error(*target, kind) {
                Some(err) => r == Err::<RegistryKey, ServerError>(err) && final(self)@ == old(self)@,
                None => r is Ok && r->Ok_0@ == key_of(*target) && final(self)@ == host_spec(
                    old(self)@,
                    entry_of(*target, tags@),
                ),
            },
    {
        match kind {
            PathKind::Missing => {
                if let FileTarget::Dir { .. } = target {
                    return Err(ServerError::NotADirectory);
                }
                return Err(ServerError::PathNotFound);
            },
            PathKind::File => {
                if let FileTarget::Dir { .. } = target {
                    return Err(ServerError::NotADirectory);
                }
            },
            PathKind::Directory => {},
        }
        let key = match target {
            FileTarget::File { path, nickname } => match nickname {
                Some(n) => RegistryKey::Nickname(n.clone()),
                None => RegistryKey::Path(path.clone()),
            },
            FileTarget::Dir { path } => RegistryKey::Path(path.clone()),
        };
        let ghost s = self@;
        self.retain_entries(Some(&key), None);
        let entry = HostedEntry { key: key.copy(), path: target.path().clone(), tags: copy_texts(tags) };
        self.entries.push(entry);
        proof {
            lemma_filter_keeps_unique(s, other_key(key@));
            let f = s.filter(other_key(key@));
            assert(self@ =~= f.push(entry_of(*target, tags@)));
            assert forall|a: int| 0 <= a < f.len() implies f[a].key != key@ by {
                s.lemma_filter_pred(other_key(key@), a);
            }
        }
        Ok(key)
    }

    /// Removes every entry that matches `t`; returns their keys. A target
    /// that matches nothing leaves the registry as it is.
    pub fn unhost(&mut self, t: &Target) -> (r: Vec<RegistryKey>)
        requires
            old(self).wf(),
        ensures
            final(self).wf(),
            final(self)@ == unhost_spec(old(self)@, t@),
            key_views(r@) == resolve_spec(old(self)@, t@),
    {
        let ghost s = self@;
        let r = self.retain_entries(None, Some(t));
        proof {
            lemma_filter_keeps_unique(s, not_matching(t@));
        }
        r
    }
}

} // verus!
