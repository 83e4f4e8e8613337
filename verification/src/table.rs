//! The request table an actor accumulates while its message sets are scanned,
//! and the name-keyed context that pairs message sets with states.
//!
//! Both are insertion-ordered with unique keys, so a run over a fixed input
//! emits its output in one fixed order.

use vstd::prelude::*;

verus! {

/// One request-table entry: a request kind and the reply field's original
/// declared type.
#[derive(Debug, Clone, PartialEq, Eq)]
pub struct ReqEntry {
    pub variant: String,
    pub resp_ty: String,
}

pub struct ReqEntryV {
    pub variant: Seq<char>,
    pub resp_ty: Seq<char>,
}

impl View for ReqEntry {
    type V = ReqEntryV;

    open spec fn view(&self) -> ReqEntryV {
        ReqEntryV { variant: self.variant@, resp_ty: self.resp_ty@ }
    }
}

pub open spec fn tbl_contains(t: Seq<ReqEntryV>, k: Seq<char>) -> bool {
    exists|i: int| 0 <= i < t.len() && t[i].variant == k
}

/// Keyed insertion: replaces the first entry carrying the same request kind,
/// else appends.
pub open spec fn tbl_insert(t: Seq<ReqEntryV>, e: ReqEntryV) -> Seq<ReqEntryV>
    decreases t.len(),
{
    if t.len() == 0 {
        seq![e]
    } else if t[0].variant == e.variant {
        seq![e] + t.skip(1)
    } else {
        seq![t[0]] + tbl_insert(t.skip(1), e)
    }
}

pub proof fn lemma_tbl_insert_found(t: Seq<ReqEntryV>, e: ReqEntryV, i: int)
    requires
        0 <= i < t.len(),
        t[i].variant == e.variant,
        forall|j: int| 0 <= j < i ==> t[j].variant != e.variant,
    ensures
        tbl_insert(t, e) == t.update(i, e),
    decreases i,
{
    if i == 0 {
        assert(tbl_insert(t, e) =~= t.update(0, e));
    } else {
        assert(forall|j: int| 0 <= j < i - 1 ==> t.skip(1)[j] == t[j + 1]);
        lemma_tbl_insert_found(t.skip(1), e, i - 1);
        assert(tbl_insert(t, e) =~= t.update(i, e));
    }
}

pub proof fn lemma_tbl_insert_absent(t: Seq<ReqEntryV>, e: ReqEntryV)
    requires
        forall|j: int| 0 <= j < t.len() ==> t[j].variant != e.variant,
    ensures
        tbl_insert(t, e) == t.push(e),
    decreases t.len(),
{
    if t.len() == 0 {
        assert(tbl_insert(t, e) =~= t.push(e));
    } else {
        assert(forall|j: int| 0 <= j < t.len() - 1 ==> t.skip(1)[j] == t[j + 1]);
        lemma_tbl_insert_absent(t.skip(1), e);
        assert(tbl_insert(t, e) =~= t.push(e));
    }
}

/// The request table: request kind to original reply type, in first-insertion
/// order.
#[derive(Debug, Clone, PartialEq, Eq)]
pub struct RequestTable {
    pub entries: Vec<ReqEntry>,
}

pub open spec fn tbl_view(entries: Seq<ReqEntry>) -> Seq<ReqEntryV> {
    entries.map_values(|e: ReqEntry| e@)
}

impl View for RequestTable {
    type V = Seq<ReqEntryV>;

    open spec fn view(&self) -> Seq<ReqEntryV> {
        tbl_view(self.entries@)
    }
}

impl RequestTable {
    pub fn new() -> (r: RequestTable)
        ensures
            r@ =~= Seq::<ReqEntryV>::empty(),
    {
        RequestTable { entries: Vec::new() }
    }

    pub fn len(&self) -> (n: usize)
        ensures
            n == self@.len(),
    {
        self.entries.len()
    }

    /// Records one request kind's reply type: replaces the entry under the
    /// same kind if one exists, else appends.
    pub fn insert(&mut self, variant: String, resp_ty: String)
        ensures
            final(self)@ == tbl_insert(old(self)@, ReqEntryV { variant: variant@, resp_ty: resp_ty@ }),
    {
        let ghost e = ReqEntryV { variant: variant@, resp_ty: resp_ty@ };
        let n = self.entries.len();
        let mut i: usize = 0;
        while i < n
            invariant
                0 <= i <= n,
                n == self.entries@.len(),
                self@ == old(self)@,
                self.entries@ == old(self).entries@,
                e == (ReqEntryV { variant: variant@, resp_ty: resp_ty@ }),
                forall|j: int| 0 <= j < i ==> self@[j].variant != variant@,
            decreases n - i,
        {
            if self.entries[i].variant == variant {
                let entry = ReqEntry { variant, resp_ty };
                proof {
                    assert(self@[i as int].variant == variant@);
                    lemma_tbl_insert_found(old(self)@, e, i as int);
                }
                self.entries.set(i, entry);
                proof {
                    assert(forall|j: int| 0 <= j < self.entries@.len()
                        ==> #[trigger] self@[j] == self.entries@[j]@);
                    assert(forall|j: int| 0 <= j < old(self).entries@.len()
                        ==> #[trigger] old(self)@[j] == old(self).entries@[j]@);
                    assert(self@ =~= old(self)@.update(i as int, e));
                }
                return;
            }
            proof {
                assert(self@[i as int] == self.entries@[i as int]@);
            }
            i += 1;
        }
        proof {
            lemma_tbl_insert_absent(old(self)@, e);
        }
        self.entries.push(ReqEntry { variant, resp_ty });
        proof {
            assert(forall|j: int| 0 <= j < self.entries@.len()
                ==> #[trigger] self@[j] == self.entries@[j]@);
            assert(forall|j: int| 0 <= j < old(self).entries@.len()
                ==> #[trigger] old(self)@[j] == old(self).entries@[j]@);
            assert(self@ =~= old(self)@.push(e));
        }
    }
}

/// What one pairing accumulates: the owning message set's identifier, the
/// request table, and the paired state's identifier once resolved.
#[derive(Debug, Clone, PartialEq, Eq)]
pub struct ActorInfo {
    pub actor_name: Option<String>,
    pub msg_name: String,
    pub table: RequestTable,
}

pub struct ActorInfoV {
    pub actor_name: Option<Seq<char>>,
    pub msg_name: Seq<char>,
    pub table: Seq<ReqEntryV>,
}

impl View for ActorInfo {
    type V = ActorInfoV;

    open spec fn view(&self) -> ActorInfoV {
        ActorInfoV {
            actor_name: match &self.actor_name {
                Some(s) => Some(s@),
                None => None,
            },
            msg_name: self.msg_name@,
            table: self.table@,
        }
    }
}

impl ActorInfo {
    /// A fresh context entry for a message set's first sighting: no paired
    /// state yet, an empty request table.
    pub fn new(msg_name: String) -> (r: ActorInfo)
        ensures
            r@.actor_name is None,
            r@.msg_name == msg_name@,
            r@.table =~= Seq::<ReqEntryV>::empty(),
    {
        ActorInfo { actor_name: None, msg_name, table: RequestTable::new() }
    }
}

/// One context entry: an actor's logical name and what has accumulated under
/// it.
#[derive(Debug, Clone, PartialEq, Eq)]
pub struct CtxEntry {
    pub name: String,
    pub info: ActorInfo,
}

pub struct CtxEntryV {
    pub name: Seq<char>,
    pub info: ActorInfoV,
}

impl View for CtxEntry {
    type V = CtxEntryV;

    open spec fn view(&self) -> CtxEntryV {
        CtxEntryV { name: self.name@, info: self.info@ }
    }
}

pub open spec fn ctx_view(entries: Seq<CtxEntry>) -> Seq<CtxEntryV> {
    entries.map_values(|e: CtxEntry| e@)
}

/// The first entry under a name, if any: the accumulation context is keyed by
/// the actor's logical name.
pub open spec fn ctx_find(c: Seq<CtxEntryV>, k: Seq<char>) -> Option<ActorInfoV>
    decreases c.len(),
{
    if c.len() == 0 {
        None
    } else if c[0].name == k {
        Some(c[0].info)
    } else {
        ctx_find(c.skip(1), k)
    }
}

pub proof fn lemma_ctx_find_at(c: Seq<CtxEntryV>, k: Seq<char>, i: int)
    requires
        0 <= i < c.len(),
        c[i].name == k,
        forall|j: int| 0 <= j < i ==> c[j].name != k,
    ensures
        ctx_find(c, k) == Some(c[i].info),
    decreases i,
{
    if i > 0 {
        assert(forall|j: int| 0 <= j < i - 1 ==> c.skip(1)[j] == c[j + 1]);
        lemma_ctx_find_at(c.skip(1), k, i - 1);
    }
}

pub proof fn lemma_ctx_find_absent(c: Seq<CtxEntryV>, k: Seq<char>)
    requires
        forall|j: int| 0 <= j < c.len() ==> c[j].name != k,
    ensures
        ctx_find(c, k) is None,
    decreases c.len(),
{
    if c.len() > 0 {
        assert(forall|j: int| 0 <= j < c.len() - 1 ==> c.skip(1)[j] == c[j + 1]);
        lemma_ctx_find_absent(c.skip(1), k);
    }
}

/// The accumulation context: actor logical name to its entry, in
/// first-sighting order.
pub struct Context {
    pub entries: Vec<CtxEntry>,
}

impl View for Context {
    type V = Seq<CtxEntryV>;

    open spec fn view(&self) -> Seq<CtxEntryV> {
        ctx_view(self.entries@)
    }
}

impl Context {
    pub fn new() -> (r: Context)
        ensures
            r@ =~= Seq::<CtxEntryV>::empty(),
    {
        Context { entries: Vec::new() }
    }

    /// The first index holding the given name, if any.
    pub fn index_of(&self, name: &String) -> (r: Option<usize>)
        ensures
            match r {
                Some(i) => 0 <= i < self@.len() && self@[i as int].name == name@
                    && (forall|j: int| 0 <= j < i ==> self@[j].name != name@),
                None => forall|j: int| 0 <= j < self@.len() ==> self@[j].name != name@,
            },
    {
        let n = self.entries.len();
        let mut i: usize = 0;
        while i < n
            invariant
                0 <= i <= n,
                n == self.entries@.len(),
                forall|j: int| 0 <= j < i ==> self@[j].name != name@,
            decreases n - i,
        {
            proof {
                assert(self@[i as int] == self.entries@[i as int]@);
            }
            if self.entries[i].name == *name {
                return Some(i);
            }
            i += 1;
        }
        None
    }
}

pub proof fn lemma_tbl_view_index(s: Seq<ReqEntry>)
    ensures
        tbl_view(s).len() == s.len(),
        forall|i: int| 0 <= i < s.len() ==> #[trigger] tbl_view(s)[i] == s[i]@,
{
}

pub proof fn lemma_tbl_view_remove0(s: Seq<ReqEntry>)
    requires
        s.len() > 0,
    ensures
        tbl_view(s.remove(0)) == tbl_view(s).skip(1),
{
    lemma_tbl_view_index(s);
    lemma_tbl_view_index(s.remove(0));
    assert forall|i: int| 0 <= i < s.remove(0).len()
        implies tbl_view(s.remove(0))[i] == tbl_view(s).skip(1)[i] by {
        assert(tbl_view(s.remove(0))[i] == s.remove(0)[i]@);
        assert(s.remove(0)[i] == s[i + 1]);
        assert(tbl_view(s)[i + 1] == s[i + 1]@);
    }
    assert(tbl_view(s.remove(0)) =~= tbl_view(s).skip(1));
}

pub proof fn lemma_ctx_view_index(s: Seq<CtxEntry>)
    ensures
        ctx_view(s).len() == s.len(),
        forall|i: int| 0 <= i < s.len() ==> #[trigger] ctx_view(s)[i] == s[i]@,
{
}

pub proof fn lemma_ctx_view_remove(s: Seq<CtxEntry>, i: int)
    requires
        0 <= i < s.len(),
    ensures
        ctx_view(s.remove(i)) == ctx_view(s).remove(i),
{
    lemma_ctx_view_index(s);
    lemma_ctx_view_index(s.remove(i));
    assert forall|x: int| 0 <= x < s.remove(i).len()
        implies ctx_view(s.remove(i))[x] == ctx_view(s).remove(i)[x] by {
        assert(ctx_view(s.remove(i))[x] == s.remove(i)[x]@);
        if x < i {
            assert(s.remove(i)[x] == s[x]);
            assert(ctx_view(s)[x] == s[x]@);
        } else {
            assert(s.remove(i)[x] == s[x + 1]);
            assert(ctx_view(s)[x + 1] == s[x + 1]@);
        }
    }
    assert(ctx_view(s.remove(i)) =~= ctx_view(s).remove(i));
}

pub proof fn lemma_ctx_view_insert(s: Seq<CtxEntry>, i: int, x: CtxEntry)
    requires
        0 <= i <= s.len(),
    ensures
        ctx_view(s.insert(i, x)) == ctx_view(s).insert(i, x@),
{
    lemma_ctx_view_index(s);
    lemma_ctx_view_index(s.insert(i, x));
    assert forall|y: int| 0 <= y < s.insert(i, x).len()
        implies ctx_view(s.insert(i, x))[y] == ctx_view(s).insert(i, x@)[y] by {
        assert(ctx_view(s.insert(i, x))[y] == s.insert(i, x)[y]@);
        if y < i {
            assert(s.insert(i, x)[y] == s[y]);
            assert(ctx_view(s)[y] == s[y]@);
        } else if y == i {
            assert(s.insert(i, x)[y] == x);
        } else {
            assert(s.insert(i, x)[y] == s[y - 1]);
            assert(ctx_view(s)[y - 1] == s[y - 1]@);
        }
    }
    assert(ctx_view(s.insert(i, x)) =~= ctx_view(s).insert(i, x@));
}

pub proof fn lemma_ctx_view_push(s: Seq<CtxEntry>, x: CtxEntry)
    ensures
        ctx_view(s.push(x)) == ctx_view(s).push(x@),
{
    lemma_ctx_view_index(s);
    lemma_ctx_view_index(s.push(x));
    assert forall|i: int| 0 <= i < s.push(x).len()
        implies ctx_view(s.push(x))[i] == ctx_view(s).push(x@)[i] by {
        assert(ctx_view(s.push(x))[i] == s.push(x)[i]@);
        if i < s.len() {
            assert(s.push(x)[i] == s[i]);
            assert(ctx_view(s)[i] == s[i]@);
        } else {
            assert(s.push(x)[i] == x);
        }
    }
    assert(ctx_view(s.push(x)) =~= ctx_view(s).push(x@));
}

pub proof fn lemma_ctx_view_remove0(s: Seq<CtxEntry>)
    requires
        s.len() > 0,
    ensures
        ctx_view(s.remove(0)) == ctx_view(s).skip(1),
{
    lemma_ctx_view_remove(s, 0);
    assert(ctx_view(s).remove(0) =~= ctx_view(s).skip(1));
}

} // verus!
