//! The pipeline's laws, proved over its specification: pairing correctness,
//! no pairing without a match, and the idempotent skip of malformed input.
//!
//! That repeated runs over identical input give identical output is the
//! contract of the pipeline itself: its result equals a function of the input
//! namespace alone.

use vstd::prelude::*;
use crate::decl::DeclV;
use crate::decl::FieldV;
use crate::decl::HandleImplDeclV;
use crate::decl::StateImplDeclV;
use crate::decl::HandleDeclV;
use crate::decl::MessageSetDeclV;
use crate::decl::MethodKind;
use crate::decl::StateFieldsV;
use crate::decl::VariantV;
use crate::decl::VariantFieldsV;
use crate::names::ends_with_msg;
use crate::names::strip_msg;
use crate::pipeline::emit_all;
use crate::pipeline::emit_entry;
use crate::pipeline::emit_methods;
use crate::pipeline::ff_method;
use crate::pipeline::field_entries;
use crate::pipeline::handle_name_of;
use crate::pipeline::is_reply_field;
use crate::pipeline::msgset_entries;
use crate::pipeline::rt_method;
use crate::pipeline::spec_actors;
use crate::pipeline::tbl_after;
use crate::pipeline::pass1_ctx;
use crate::pipeline::pass1_decl;
use crate::pipeline::pass1_decls;
use crate::pipeline::pass2;
use crate::pipeline::ctx_apply_msgset;
use crate::pipeline::ctx_set_actor;
use crate::pipeline::variant_entries;
use crate::pipeline::Pass2V;
use crate::pipeline::lemma_pass2_decls_len;
use crate::pipeline::lemma_ctx_apply_msgset_absent;
use crate::pipeline::lemma_ctx_set_actor_found;
use crate::table::ActorInfoV;
use crate::table::CtxEntryV;
use crate::table::ctx_find;
use crate::table::ReqEntryV;
use crate::table::tbl_contains;
use crate::table::tbl_insert;

verus! {

/// A variant carries a reply: it has named fields, one of them the reserved
/// reply field.
pub open spec fn has_reply(v: VariantV) -> bool {
    match v.fields {
        VariantFieldsV::Named(fs) => exists|i: int| 0 <= i < fs.len() && is_reply_field(fs[i]),
        VariantFieldsV::Unnamed => false,
    }
}

/// A message set is a tagged union: its variant names are distinct.
pub open spec fn variant_names_unique(vs: Seq<VariantV>) -> bool {
    forall|i: int, j: int| 0 <= i < j < vs.len() ==> vs[i].name != vs[j].name
}

/// Some entry of the sequence carries the given request kind.
pub open spec fn es_has(es: Seq<ReqEntryV>, k: Seq<char>) -> bool {
    exists|i: int| 0 <= i < es.len() && es[i].variant == k
}

/// The table's keys are distinct.
pub open spec fn tbl_unique(t: Seq<ReqEntryV>) -> bool {
    forall|i: int, j: int| 0 <= i < j < t.len() ==> t[i].variant != t[j].variant
}

/// The declaration is an accessor method on the given handle, for the given
/// request kind, of the given flavour.
pub open spec fn is_acc(d: DeclV, h: Seq<char>, v: Seq<char>, kind: MethodKind) -> bool {
    match d {
        DeclV::Method(md) => md.handle_name == h && md.variant == v && md.kind == kind,
        _ => false,
    }
}

/// How many such accessor methods a declaration sequence holds.
pub open spec fn count_acc(s: Seq<DeclV>, h: Seq<char>, v: Seq<char>, kind: MethodKind) -> int
    decreases s.len(),
{
    if s.len() == 0 {
        0
    } else {
        count_acc(s.drop_last(), h, v, kind) + if is_acc(s.last(), h, v, kind) {
            1int
        } else {
            0int
        }
    }
}

pub proof fn lemma_count_concat(a: Seq<DeclV>, b: Seq<DeclV>, h: Seq<char>, v: Seq<char>, kind: MethodKind)
    ensures
        count_acc(a + b, h, v, kind) == count_acc(a, h, v, kind) + count_acc(b, h, v, kind),
    decreases b.len(),
{
    if b.len() == 0 {
        assert(a + b =~= a);
    } else {
        lemma_count_concat(a, b.drop_last(), h, v, kind);
        assert((a + b).drop_last() =~= a + b.drop_last());
        assert((a + b).last() == b.last());
    }
}

/// Keyed insertion adds exactly the inserted key and keeps keys distinct.
pub proof fn lemma_tbl_insert_props(t: Seq<ReqEntryV>, e: ReqEntryV, k: Seq<char>)
    ensures
        tbl_contains(tbl_insert(t, e), k) <==> (tbl_contains(t, k) || e.variant == k),
        tbl_unique(t) ==> tbl_unique(tbl_insert(t, e)),
    decreases t.len(),
{
    if t.len() == 0 {
        let r = tbl_insert(t, e);
        assert(r[0] == e);
        if tbl_contains(r, k) {
            let i = choose|i: int| 0 <= i < r.len() && r[i].variant == k;
            assert(i == 0);
        }
    } else if t[0].variant == e.variant {
        let r = tbl_insert(t, e);
        assert(r =~= t.update(0, e));
        if tbl_contains(r, k) {
            let i = choose|i: int| 0 <= i < r.len() && r[i].variant == k;
            if i == 0 {
                assert(e.variant == k);
            } else {
                assert(t[i].variant == k);
            }
        }
        if tbl_contains(t, k) {
            let i = choose|i: int| 0 <= i < t.len() && t[i].variant == k;
            if i == 0 {
                assert(r[0].variant == k);
            } else {
                assert(r[i].variant == k);
            }
        }
        if e.variant == k {
            assert(r[0].variant == k);
        }
    } else {
        lemma_tbl_insert_props(t.skip(1), e, k);
        let r = tbl_insert(t, e);
        let rr = tbl_insert(t.skip(1), e);
        assert(r =~= seq![t[0]] + rr);
        assert(r[0] == t[0]);
        assert(forall|i: int| 0 <= i < rr.len() ==> r[i + 1] == rr[i]);
        if tbl_contains(r, k) {
            let i = choose|i: int| 0 <= i < r.len() && r[i].variant == k;
            if i == 0 {
                assert(t[0].variant == k);
            } else {
                assert(rr[i - 1].variant == k);
                assert(tbl_contains(rr, k));
                if tbl_contains(t.skip(1), k) {
                    let j = choose|j: int| 0 <= j < t.skip(1).len() && t.skip(1)[j].variant == k;
                    assert(t[j + 1].variant == k);
                }
            }
        }
        if tbl_contains(t, k) {
            let i = choose|i: int| 0 <= i < t.len() && t[i].variant == k;
            if i == 0 {
                assert(r[0].variant == k);
            } else {
                assert(t.skip(1)[i - 1].variant == k);
                assert(tbl_contains(t.skip(1), k));
                let j = choose|j: int| 0 <= j < rr.len() && rr[j].variant == k;
                assert(r[j + 1].variant == k);
            }
        }
        if e.variant == k {
            let j = choose|j: int| 0 <= j < rr.len() && rr[j].variant == k;
            assert(r[j + 1].variant == k);
        }
        if tbl_unique(t) {
            assert(forall|i: int, j: int| 0 <= i < j < t.skip(1).len()
                ==> t.skip(1)[i].variant != t.skip(1)[j].variant);
            assert(tbl_unique(rr));
            assert forall|j: int| 1 <= j < r.len() implies r[0].variant != (#[trigger] r[j]).variant by {
                assert(r[j] == rr[j - 1]);
                if rr[j - 1].variant == t[0].variant {
                    assert(tbl_contains(rr, t[0].variant));
                    lemma_tbl_insert_props(t.skip(1), e, t[0].variant);
                    if tbl_contains(t.skip(1), t[0].variant) {
                        let x = choose|x: int| 0 <= x < t.skip(1).len()
                            && t.skip(1)[x].variant == t[0].variant;
                        assert(t[x + 1].variant == t[0].variant);
                        assert(false);
                    }
                    assert(t[0].variant != e.variant);
                    assert(false);
                }
            }
            assert(tbl_unique(r));
        }
    }
}

/// A run of keyed insertions yields exactly the keys of the inserted entries
/// (beside the table's own), kept distinct.
pub proof fn lemma_tbl_after_props(t: Seq<ReqEntryV>, es: Seq<ReqEntryV>, k: Seq<char>)
    ensures
        tbl_contains(tbl_after(t, es), k) <==> (tbl_contains(t, k) || es_has(es, k)),
        tbl_unique(t) ==> tbl_unique(tbl_after(t, es)),
    decreases es.len(),
{
    if es.len() == 0 {
        assert(!es_has(es, k));
    } else {
        lemma_tbl_after_props(t, es.drop_last(), k);
        lemma_tbl_insert_props(tbl_after(t, es.drop_last()), es.last(), k);
        if es_has(es, k) {
            let i = choose|i: int| 0 <= i < es.len() && es[i].variant == k;
            if i < es.len() - 1 {
                assert(es.drop_last()[i].variant == k);
                assert(es_has(es.drop_last(), k));
            }
        }
        if es_has(es.drop_last(), k) {
            let i = choose|i: int| 0 <= i < es.drop_last().len() && es.drop_last()[i].variant == k;
            assert(es[i].variant == k);
        }
        if es.last().variant == k {
            assert(es[es.len() - 1].variant == k);
        }
    }
}

/// What one variant's fields contribute: entries under the variant's own
/// name, and some exactly when a reply field exists.
pub proof fn lemma_field_entries_props(vn: Seq<char>, fs: Seq<FieldV>, k: Seq<char>)
    ensures
        es_has(field_entries(vn, fs), k) <==> (k == vn && exists|i: int|
            0 <= i < fs.len() && is_reply_field(fs[i])),
    decreases fs.len(),
{
    if fs.len() == 0 {
    } else {
        lemma_field_entries_props(vn, fs.drop_last(), k);
        let prev = field_entries(vn, fs.drop_last());
        let r = field_entries(vn, fs);
        if is_reply_field(fs.last()) {
            assert(r =~= prev.push(ReqEntryV { variant: vn, resp_ty: fs.last().ty->Plain_0 }));
            assert(fs[fs.len() - 1] == fs.last());
            if es_has(r, k) {
                let i = choose|i: int| 0 <= i < r.len() && r[i].variant == k;
                if i < prev.len() {
                    assert(es_has(prev, k));
                } else {
                    assert(k == vn);
                }
            }
            if k == vn {
                assert(r[r.len() - 1].variant == vn);
            }
        } else {
            assert(r =~= prev);
            if es_has(r, k) {
                let i = choose|i: int| 0 <= i < r.len() && r[i].variant == k;
                assert(es_has(prev, k));
            }
            if exists|i: int| 0 <= i < fs.len() && is_reply_field(fs[i]) {
                let i = choose|i: int| 0 <= i < fs.len() && is_reply_field(fs[i]);
                assert(i < fs.len() - 1);
                assert(fs.drop_last()[i] == fs[i]);
            }
            if exists|i: int| 0 <= i < fs.drop_last().len() && is_reply_field(fs.drop_last()[i]) {
                let i = choose|i: int| 0 <= i < fs.drop_last().len() && is_reply_field(
                    fs.drop_last()[i]);
                assert(fs[i] == fs.drop_last()[i]);
            }
        }
    }
}

/// What a whole message set contributes: a request kind appears exactly when
/// a variant of that name carries a reply field.
pub proof fn lemma_msgset_entries_props(vs: Seq<VariantV>, k: Seq<char>)
    ensures
        es_has(msgset_entries(vs), k) <==> (exists|i: int|
            0 <= i < vs.len() && vs[i].name == k && has_reply(vs[i])),
    decreases vs.len(),
{
    if vs.len() == 0 {
    } else {
        lemma_msgset_entries_props(vs.drop_last(), k);
        let prev = msgset_entries(vs.drop_last());
        let tail = crate::pipeline::variant_entries(vs.last());
        let r = msgset_entries(vs);
        assert(r == prev + tail);
        match vs.last().fields {
            VariantFieldsV::Named(fs) => {
                lemma_field_entries_props(vs.last().name, fs, k);
                assert(tail == field_entries(vs.last().name, fs));
            }
            VariantFieldsV::Unnamed => {
                assert(tail.len() == 0);
            }
        }
        if es_has(r, k) {
            let i = choose|i: int| 0 <= i < r.len() && r[i].variant == k;
            if i < prev.len() {
                assert(prev[i] == r[i]);
                assert(es_has(prev, k));
                let j = choose|j: int| 0 <= j < vs.drop_last().len()
                    && vs.drop_last()[j].name == k && has_reply(vs.drop_last()[j]);
                assert(vs[j].name == k && has_reply(vs[j]));
            } else {
                assert(tail[i - prev.len()] == r[i]);
                assert(es_has(tail, k));
                assert(vs[vs.len() - 1].name == k && has_reply(vs[vs.len() - 1]));
            }
        }
        if exists|i: int| 0 <= i < vs.len() && vs[i].name == k && has_reply(vs[i]) {
            let i = choose|i: int| 0 <= i < vs.len() && vs[i].name == k && has_reply(vs[i]);
            if i < vs.len() - 1 {
                assert(vs.drop_last()[i] == vs[i]);
                assert(es_has(prev, k));
                let x = choose|x: int| 0 <= x < prev.len() && prev[x].variant == k;
                assert(r[x].variant == k);
            } else {
                assert(es_has(tail, k));
                let x = choose|x: int| 0 <= x < tail.len() && tail[x].variant == k;
                assert(r[prev.len() + x].variant == k);
            }
        }
    }
}

/// The accessor methods a table emits: per request kind of the table, exactly
/// one of each flavour, under the table's handle, and nothing else.
pub proof fn lemma_count_emit_methods(
    h: Seq<char>,
    msg: Seq<char>,
    t: Seq<ReqEntryV>,
    h2: Seq<char>,
    v: Seq<char>,
    kind: MethodKind,
)
    ensures
        h2 != h ==> count_acc(emit_methods(h, msg, t), h2, v, kind) == 0,
        h2 == h && !tbl_contains(t, v) ==> count_acc(emit_methods(h, msg, t), h2, v, kind) == 0,
        h2 == h && tbl_unique(t) && tbl_contains(t, v) ==> count_acc(
            emit_methods(h, msg, t), h2, v, kind) == 1,
    decreases t.len(),
{
    if t.len() == 0 {
    } else {
        reveal_with_fuel(count_acc, 4);
        lemma_count_emit_methods(h, msg, t.drop_last(), h2, v, kind);
        let prev = emit_methods(h, msg, t.drop_last());
        let pair = seq![rt_method(h, msg, t.last()), ff_method(h, msg, t.last())];
        assert(emit_methods(h, msg, t) == prev + pair);
        lemma_count_concat(prev, pair, h2, v, kind);
        assert(pair.drop_last() =~= seq![rt_method(h, msg, t.last())]);
        assert(pair.drop_last().drop_last() =~= Seq::<DeclV>::empty());
        assert(pair[0] == rt_method(h, msg, t.last()));
        assert(pair[1] == ff_method(h, msg, t.last()));
        assert(pair.last() == pair[1]);
        assert(pair.drop_last().last() == pair[0]);
        assert(count_acc(pair, h2, v, kind) == (if is_acc(pair[0], h2, v, kind) {
            1int
        } else {
            0int
        }) + (if is_acc(pair[1], h2, v, kind) {
            1int
        } else {
            0int
        }));
        if tbl_unique(t) {
            assert(forall|i: int, j: int| 0 <= i < j < t.drop_last().len()
                ==> t.drop_last()[i].variant != t.drop_last()[j].variant);
        }
        if tbl_contains(t, v) {
            let i = choose|i: int| 0 <= i < t.len() && t[i].variant == v;
            if i < t.len() - 1 {
                assert(t.drop_last()[i].variant == v);
                assert(tbl_contains(t.drop_last(), v));
            }
        }
        if tbl_contains(t.drop_last(), v) {
            let i = choose|i: int| 0 <= i < t.drop_last().len() && t.drop_last()[i].variant == v;
            assert(t[i].variant == v);
            assert(tbl_contains(t, v));
        }
        if h2 == h && tbl_unique(t) && tbl_contains(t, v) && t.last().variant == v {
            if tbl_contains(t.drop_last(), v) {
                let i = choose|i: int| 0 <= i < t.drop_last().len()
                    && t.drop_last()[i].variant == v;
                assert(t[i].variant == t[t.len() - 1].variant);
                assert(false);
            }
        }
    }
}


/// No element of the sequence is the accessor method counted.
pub proof fn lemma_count_zero(s: Seq<DeclV>, h: Seq<char>, v: Seq<char>, kind: MethodKind)
    requires
        forall|i: int| 0 <= i < s.len() ==> !is_acc(#[trigger] s[i], h, v, kind),
    ensures
        count_acc(s, h, v, kind) == 0,
    decreases s.len(),
{
    if s.len() > 0 {
        assert(forall|i: int| 0 <= i < s.len() - 1 ==> s.drop_last()[i] == s[i]);
        lemma_count_zero(s.drop_last(), h, v, kind);
        assert(s[s.len() - 1] == s.last());
    }
}

/// Folding one message set into the context adds exactly its derived name to
/// the keys and resolves nothing.
pub proof fn lemma_ctx_apply_keys(c: Seq<CtxEntryV>, n2: Seq<char>, m: MessageSetDeclV, k: Seq<char>)
    ensures
        (exists|i: int| 0 <= i < ctx_apply_msgset(c, n2, m).len()
            && ctx_apply_msgset(c, n2, m)[i].name == k) <==> ((exists|i: int|
            0 <= i < c.len() && c[i].name == k) || k == n2),
        (forall|i: int| 0 <= i < c.len() ==> c[i].info.actor_name is None) ==> (forall|i: int|
            0 <= i < ctx_apply_msgset(c, n2, m).len() ==> ctx_apply_msgset(c, n2, m)[i].info.actor_name is None),
    decreases c.len(),
{
    let r = ctx_apply_msgset(c, n2, m);
    if c.len() == 0 {
        assert(r[0].name == n2);
        if exists|i: int| 0 <= i < r.len() && r[i].name == k {
            let i = choose|i: int| 0 <= i < r.len() && r[i].name == k;
            assert(i == 0);
        }
    } else if c[0].name == n2 {
        assert(r.len() == c.len());
        assert(r[0].name == c[0].name);
        assert(forall|i: int| 1 <= i < r.len() ==> r[i] == c[i]);
        if exists|i: int| 0 <= i < r.len() && r[i].name == k {
            let i = choose|i: int| 0 <= i < r.len() && r[i].name == k;
            assert(c[i].name == k);
        }
        if exists|i: int| 0 <= i < c.len() && c[i].name == k {
            let i = choose|i: int| 0 <= i < c.len() && c[i].name == k;
            assert(r[i].name == k);
        }
        if k == n2 {
            assert(r[0].name == k);
        }
        assert(r[0].info.actor_name == c[0].info.actor_name);
    } else {
        lemma_ctx_apply_keys(c.skip(1), n2, m, k);
        let rr = ctx_apply_msgset(c.skip(1), n2, m);
        assert(r =~= seq![c[0]] + rr);
        assert(r[0] == c[0]);
        assert(forall|i: int| 0 <= i < rr.len() ==> r[i + 1] == rr[i]);
        assert(forall|i: int| 0 <= i < c.len() - 1 ==> c.skip(1)[i] == c[i + 1]);
        if exists|i: int| 0 <= i < r.len() && r[i].name == k {
            let i = choose|i: int| 0 <= i < r.len() && r[i].name == k;
            if i > 0 {
                assert(rr[i - 1].name == k);
            }
        }
        if exists|i: int| 0 <= i < c.len() && c[i].name == k {
            let i = choose|i: int| 0 <= i < c.len() && c[i].name == k;
            if i > 0 {
                assert(c.skip(1)[i - 1].name == k);
                let j = choose|j: int| 0 <= j < rr.len() && rr[j].name == k;
                assert(r[j + 1].name == k);
            }
        }
        if k == n2 {
            let j = choose|j: int| 0 <= j < rr.len() && rr[j].name == k;
            assert(r[j + 1].name == k);
        }
    }
}

/// Pass one creates context keys exactly for the derived names of the
/// suffixed message sets it scans, all unresolved.
pub open spec fn derives(d: DeclV, n: Seq<char>) -> bool {
    match d {
        DeclV::MessageSet(m) => ends_with_msg(m.name) && strip_msg(m.name) == n,
        _ => false,
    }
}

pub proof fn lemma_pass1_keys(c0: Seq<CtxEntryV>, ds: Seq<DeclV>, k: Seq<char>)
    ensures
        (exists|i: int| 0 <= i < pass1_ctx(c0, ds).len() && pass1_ctx(c0, ds)[i].name == k) <==> (
            (exists|i: int| 0 <= i < c0.len() && c0[i].name == k) || (exists|i: int|
                0 <= i < ds.len() && derives(ds[i], k))),
        (forall|i: int| 0 <= i < c0.len() ==> c0[i].info.actor_name is None) ==> (forall|i: int|
            0 <= i < pass1_ctx(c0, ds).len() ==> pass1_ctx(c0, ds)[i].info.actor_name is None),
    decreases ds.len(),
{
    if ds.len() > 0 {
        lemma_pass1_keys(c0, ds.drop_last(), k);
        let cp = pass1_ctx(c0, ds.drop_last());
        assert(forall|i: int| 0 <= i < ds.len() - 1 ==> ds.drop_last()[i] == ds[i]);
        match ds.last() {
            DeclV::MessageSet(m) => {
                if ends_with_msg(m.name) {
                    lemma_ctx_apply_keys(cp, strip_msg(m.name), m, k);
                    if k == strip_msg(m.name) {
                        assert(derives(ds[ds.len() - 1], k));
                    }
                    if exists|i: int| 0 <= i < ds.len() && derives(ds[i], k) {
                        let i = choose|i: int| 0 <= i < ds.len() && derives(ds[i], k);
                        if i < ds.len() - 1 {
                            assert(derives(ds.drop_last()[i], k));
                        }
                    }
                } else {
                    assert(pass1_ctx(c0, ds) == cp);
                    if exists|i: int| 0 <= i < ds.len() && derives(ds[i], k) {
                        let i = choose|i: int| 0 <= i < ds.len() && derives(ds[i], k);
                        assert(i < ds.len() - 1);
                        assert(derives(ds.drop_last()[i], k));
                    }
                }
            }
            _ => {
                assert(pass1_ctx(c0, ds) == cp);
                if exists|i: int| 0 <= i < ds.len() && derives(ds[i], k) {
                    let i = choose|i: int| 0 <= i < ds.len() && derives(ds[i], k);
                    assert(i < ds.len() - 1);
                    assert(derives(ds.drop_last()[i], k));
                }
            }
        }
    } else {
        if exists|i: int| 0 <= i < ds.len() && derives(ds[i], k) {
            let i = choose|i: int| 0 <= i < ds.len() && derives(ds[i], k);
        }
    }
}


/// Resolving an entry changes nothing but that entry's resolution.
pub proof fn lemma_ctx_set_shape(c: Seq<CtxEntryV>, x: Seq<char>)
    ensures
        ctx_set_actor(c, x).len() == c.len(),
        forall|i: int| 0 <= i < c.len() ==> (#[trigger] ctx_set_actor(c, x)[i]).name == c[i].name
            && ctx_set_actor(c, x)[i].info.msg_name == c[i].info.msg_name
            && ctx_set_actor(c, x)[i].info.table == c[i].info.table
            && (ctx_set_actor(c, x)[i].info.actor_name == c[i].info.actor_name
                || ctx_set_actor(c, x)[i].info.actor_name == Some(c[i].name)),
    decreases c.len(),
{
    if c.len() > 0 {
        let r = ctx_set_actor(c, x);
        if c[0].name == x {
            assert(forall|i: int| 1 <= i < c.len() ==> r[i] == c[i]);
        } else {
            lemma_ctx_set_shape(c.skip(1), x);
            let rr = ctx_set_actor(c.skip(1), x);
            assert(r =~= seq![c[0]] + rr);
            assert(forall|i: int| 0 <= i < rr.len() ==> r[i + 1] == rr[i]);
            assert(forall|i: int| 0 <= i < c.len() - 1 ==> c.skip(1)[i] == c[i + 1]);
        }
    }
}

/// A walk preserves the context's names, message identifiers and tables; it
/// can only resolve an entry to its own name.
pub proof fn lemma_pass2_ctx_shape(st0: Pass2V, ds: Seq<DeclV>)
    ensures
        pass2(st0, ds).ctx.len() == st0.ctx.len(),
        forall|i: int| 0 <= i < st0.ctx.len() ==> (#[trigger] pass2(st0, ds).ctx[i]).name
            == st0.ctx[i].name
            && pass2(st0, ds).ctx[i].info.msg_name == st0.ctx[i].info.msg_name
            && pass2(st0, ds).ctx[i].info.table == st0.ctx[i].info.table
            && (pass2(st0, ds).ctx[i].info.actor_name == st0.ctx[i].info.actor_name
                || pass2(st0, ds).ctx[i].info.actor_name == Some(st0.ctx[i].name)),
    decreases ds.len(),
{
    if ds.len() > 0 {
        lemma_pass2_ctx_shape(st0, ds.drop_last());
        let cp = pass2(st0, ds.drop_last()).ctx;
        match ds.last() {
            DeclV::State(s) => {
                lemma_ctx_set_shape(cp, s.name);
            }
            _ => {}
        }
    }
}

/// A found entry is an entry.
pub proof fn lemma_ctx_find_some_key(c: Seq<CtxEntryV>, k: Seq<char>)
    requires
        ctx_find(c, k) is Some,
    ensures
        exists|i: int| 0 <= i < c.len() && (#[trigger] c[i]).name == k,
    decreases c.len(),
{
    if c.len() > 0 {
        if c[0].name == k {
            assert(c[0].name == k);
        } else {
            lemma_ctx_find_some_key(c.skip(1), k);
            let i = choose|i: int| 0 <= i < c.skip(1).len() && c.skip(1)[i].name == k;
            assert(c[i + 1].name == k);
        }
    }
}

/// Handle names are injective in the state's name: the fixed marker is a
/// common prefix.
pub proof fn lemma_handle_name_injective(a: Seq<char>, b: Seq<char>)
    requires
        handle_name_of(a) == handle_name_of(b),
    ensures
        a == b,
{
    reveal_strlit("Actor");
    assert(handle_name_of(a).skip(5) =~= a);
    assert(handle_name_of(b).skip(5) =~= b);
}

/// A walk collects handle types only, each named for a state whose name keys
/// the context.
pub proof fn lemma_pass2_handles_nokey(st0: Pass2V, ds: Seq<DeclV>, n: Seq<char>)
    requires
        forall|j: int| 0 <= j < st0.ctx.len() ==> (#[trigger] st0.ctx[j]).name != n,
        forall|k: int| 0 <= k < st0.handles.len() ==> !((#[trigger] st0.handles[k])
            matches DeclV::Handle(hd) && hd.name == handle_name_of(n)),
        forall|k: int| 0 <= k < st0.handles.len() ==> (#[trigger] st0.handles[k]) is Handle,
    ensures
        forall|k: int| 0 <= k < pass2(st0, ds).handles.len() ==> !((#[trigger] pass2(st0, ds).handles[k])
            matches DeclV::Handle(hd) && hd.name == handle_name_of(n)),
        forall|k: int| 0 <= k < pass2(st0, ds).handles.len() ==> (#[trigger] pass2(st0, ds).handles[k]) is Handle,
    decreases ds.len(),
{
    if ds.len() > 0 {
        lemma_pass2_handles_nokey(st0, ds.drop_last(), n);
        let stp = pass2(st0, ds.drop_last());
        lemma_pass2_ctx_shape(st0, ds.drop_last());
        match ds.last() {
            DeclV::State(s) => {
                match ctx_find(stp.ctx, s.name) {
                    Some(info) => {
                        if info.table.len() > 0 && s.fields is Named {
                            lemma_ctx_find_some_key(stp.ctx, s.name);
                            let i = choose|i: int| 0 <= i < stp.ctx.len()
                                && stp.ctx[i].name == s.name;
                            assert(st0.ctx[i].name == s.name);
                            assert(s.name != n);
                            let hd = DeclV::Handle(HandleDeclV {
                                name: handle_name_of(s.name),
                                msg_name: info.msg_name,
                            });
                            if handle_name_of(s.name) == handle_name_of(n) {
                                lemma_handle_name_injective(s.name, n);
                                assert(false);
                            }
                            assert(forall|k: int| 0 <= k < stp.handles.len()
                                ==> stp.handles.push(hd)[k] == stp.handles[k]);
                        }
                    }
                    None => {}
                }
            }
            _ => {}
        }
    }
}

/// Everything a table emits is an accessor method on the table's own handle.
pub proof fn lemma_emit_methods_handles(h: Seq<char>, msg: Seq<char>, t: Seq<ReqEntryV>)
    ensures
        forall|k: int| 0 <= k < emit_methods(h, msg, t).len() ==> ((#[trigger] emit_methods(h, msg, t)[k])
            matches DeclV::Method(md) && md.handle_name == h),
    decreases t.len(),
{
    if t.len() > 0 {
        lemma_emit_methods_handles(h, msg, t.drop_last());
        let prev = emit_methods(h, msg, t.drop_last());
        let r = emit_methods(h, msg, t);
        assert(forall|k: int| 0 <= k < prev.len() ==> r[k] == prev[k]);
        assert(r[r.len() - 2] == rt_method(h, msg, t.last()));
        assert(r[r.len() - 1] == ff_method(h, msg, t.last()));
    }
}

/// Context entries under other names, each resolved to its own name if at
/// all, emit nothing that serves the given name: no handle type ever, and no
/// constructor or accessor on its handle.
pub proof fn lemma_emit_all_other(c: Seq<CtxEntryV>, n: Seq<char>)
    requires
        forall|i: int| 0 <= i < c.len() ==> (#[trigger] c[i]).name != n,
        forall|i: int| 0 <= i < c.len() ==> ((#[trigger] c[i]).info.actor_name is None
            || c[i].info.actor_name == Some(c[i].name)),
    ensures
        forall|k: int| 0 <= k < emit_all(c).len() ==> !((#[trigger] emit_all(c)[k]) is Handle),
        forall|k: int| 0 <= k < emit_all(c).len() ==> !((#[trigger] emit_all(c)[k])
            matches DeclV::HandleImpl(hd) && hd.state_name == n),
        forall|k: int| 0 <= k < emit_all(c).len() ==> !((#[trigger] emit_all(c)[k])
            matches DeclV::Method(md) && md.handle_name == handle_name_of(n)),
    decreases c.len(),
{
    if c.len() > 0 {
        assert(forall|i: int| 0 <= i < c.len() - 1 ==> c.drop_last()[i] == c[i]);
        lemma_emit_all_other(c.drop_last(), n);
        let prev = emit_all(c.drop_last());
        let e = c.last();
        assert(c[c.len() - 1] == e);
        let r = emit_all(c);
        assert(r == prev + emit_entry(e));
        assert(forall|k: int| 0 <= k < prev.len() ==> r[k] == prev[k]);
        match e.info.actor_name {
            Some(actor) => {
                assert(actor == e.name);
                assert(actor != n);
                if e.info.table.len() > 0 {
                    let h2 = handle_name_of(actor);
                    if h2 == handle_name_of(n) {
                        lemma_handle_name_injective(actor, n);
                        assert(false);
                    }
                    lemma_emit_methods_handles(h2, e.info.msg_name, e.info.table);
                    let meths = emit_methods(h2, e.info.msg_name, e.info.table);
                    assert forall|k: int| prev.len() <= k < r.len()
                        implies !((#[trigger] r[k]) is Handle)
                            && !(r[k] matches DeclV::HandleImpl(hd) && hd.state_name == n)
                            && !(r[k] matches DeclV::Method(md) && md.handle_name == handle_name_of(n)) by {
                        assert(r[k] == emit_entry(e)[k - prev.len()]);
                        if k - prev.len() >= 2 {
                            assert(emit_entry(e)[k - prev.len()] == meths[k - prev.len() - 2]);
                        }
                    }
                }
            }
            None => {}
        }
    }
}


/// Folding one message set into the context keeps every existing entry's
/// position and name, touches only the entries of its own derived name, and
/// appends at most one entry, under that name.
pub proof fn lemma_ctx_apply_positions(c: Seq<CtxEntryV>, n2: Seq<char>, m: MessageSetDeclV)
    ensures
        ctx_apply_msgset(c, n2, m).len() >= c.len(),
        forall|i: int| 0 <= i < c.len() ==> (#[trigger] ctx_apply_msgset(c, n2, m)[i]).name == c[i].name,
        forall|i: int| 0 <= i < c.len() && c[i].name != n2 ==> (#[trigger] ctx_apply_msgset(c, n2, m)[i]) == c[i],
        forall|i: int| c.len() <= i < ctx_apply_msgset(c, n2, m).len()
            ==> (#[trigger] ctx_apply_msgset(c, n2, m)[i]).name == n2,
    decreases c.len(),
{
    let r = ctx_apply_msgset(c, n2, m);
    if c.len() == 0 {
        assert(r[0].name == n2);
    } else if c[0].name == n2 {
        assert(r[0].name == c[0].name);
        assert(forall|i: int| 1 <= i < r.len() ==> r[i] == c[i]);
    } else {
        lemma_ctx_apply_positions(c.skip(1), n2, m);
        let rr = ctx_apply_msgset(c.skip(1), n2, m);
        assert(r =~= seq![c[0]] + rr);
        assert(r[0] == c[0]);
        assert(forall|i: int| 0 <= i < rr.len() ==> r[i + 1] == rr[i]);
        assert(forall|i: int| 0 <= i < c.len() - 1 ==> c.skip(1)[i] == c[i + 1]);
    }
}

/// After pass one, a name derived by exactly one message set keys exactly one
/// entry: that set's, unresolved, holding its request table.
pub proof fn lemma_pass1_entry_for(ds: Seq<DeclV>, n: Seq<char>, a: int)
    requires
        0 <= a < ds.len(),
        derives(ds[a], n),
        forall|i: int| 0 <= i < ds.len() && i != a ==> !(#[trigger] derives(ds[i], n)),
    ensures
        exists|i: int| 0 <= i < pass1_ctx(Seq::empty(), ds).len()
            && (#[trigger] pass1_ctx(Seq::empty(), ds)[i]) == (CtxEntryV {
            name: n,
            info: ActorInfoV {
                actor_name: None,
                msg_name: (ds[a]->MessageSet_0).name,
                table: tbl_after(Seq::empty(), msgset_entries((ds[a]->MessageSet_0).variants)),
            },
        }) && (forall|j: int| 0 <= j < pass1_ctx(Seq::empty(), ds).len() && j != i
            ==> (#[trigger] pass1_ctx(Seq::empty(), ds)[j]).name != n),
    decreases ds.len(),
{
    let m = ds[a]->MessageSet_0;
    let target = CtxEntryV {
        name: n,
        info: ActorInfoV {
            actor_name: None,
            msg_name: m.name,
            table: tbl_after(Seq::empty(), msgset_entries(m.variants)),
        },
    };
    assert(forall|i: int| 0 <= i < ds.len() - 1 ==> ds.drop_last()[i] == ds[i]);
    let cp = pass1_ctx(Seq::empty(), ds.drop_last());
    let c = pass1_ctx(Seq::empty(), ds);
    if a == ds.len() - 1 {
        lemma_pass1_keys(Seq::empty(), ds.drop_last(), n);
        assert(!(exists|i: int| 0 <= i < ds.drop_last().len() && derives(ds.drop_last()[i], n)))
            by {
            if exists|i: int| 0 <= i < ds.drop_last().len() && derives(ds.drop_last()[i], n) {
                let i = choose|i: int| 0 <= i < ds.drop_last().len() && derives(ds.drop_last()[i], n);
                assert(derives(ds[i], n));
                assert(false);
            }
        };
        assert(forall|j: int| 0 <= j < cp.len() ==> (#[trigger] cp[j]).name != n) by {
            if exists|j: int| 0 <= j < cp.len() && cp[j].name == n {
                let j = choose|j: int| 0 <= j < cp.len() && cp[j].name == n;
                assert(false);
            }
        };
        assert(ds.last() == ds[a]);
        assert(ends_with_msg(m.name) && strip_msg(m.name) == n);
        assert(c == ctx_apply_msgset(cp, n, m));
        lemma_ctx_apply_msgset_absent(cp, n, m);
        assert(c == cp.push(target));
        assert(c[cp.len() as int] == target);
    } else {
        lemma_pass1_entry_for(ds.drop_last(), n, a);
        let i = choose|i: int| 0 <= i < cp.len() && (#[trigger] cp[i]) == target
            && (forall|j: int| 0 <= j < cp.len() && j != i ==> (#[trigger] cp[j]).name != n);
        match ds.last() {
            DeclV::MessageSet(m2) => {
                if ends_with_msg(m2.name) {
                    let n2 = strip_msg(m2.name);
                    assert(!derives(ds[ds.len() - 1], n));
                    assert(n2 != n);
                    assert(c == ctx_apply_msgset(cp, n2, m2));
                    lemma_ctx_apply_positions(cp, n2, m2);
                    assert(c[i] == cp[i]);
                    assert(forall|j: int| 0 <= j < c.len() && j != i
                        ==> (#[trigger] c[j]).name != n);
                } else {
                    assert(c == cp);
                }
            }
            _ => {
                assert(c == cp);
            }
        }
    }
}

/// If a walk step pairs a state with the entry of one name, the final context
/// holds that entry resolved to that name, still under its one key.
pub proof fn lemma_pass2_pairs_at(st0: Pass2V, ds: Seq<DeclV>, n: Seq<char>, b: int, i: int)
    requires
        0 <= b < ds.len(),
        ds[b] matches DeclV::State(s) && s.name == n && s.fields is Named,
        0 <= i < st0.ctx.len(),
        st0.ctx[i].name == n,
        st0.ctx[i].info.table.len() > 0,
        forall|j: int| 0 <= j < st0.ctx.len() && j != i ==> (#[trigger] st0.ctx[j]).name != n,
    ensures
        pass2(st0, ds).ctx.len() == st0.ctx.len(),
        pass2(st0, ds).ctx[i] == (CtxEntryV {
            name: n,
            info: ActorInfoV {
                actor_name: Some(n),
                msg_name: st0.ctx[i].info.msg_name,
                table: st0.ctx[i].info.table,
            },
        }),
        exists|k: int| 0 <= k < pass2(st0, ds).handles.len()
            && (#[trigger] pass2(st0, ds).handles[k]) == DeclV::Handle(HandleDeclV {
            name: handle_name_of(n),
            msg_name: st0.ctx[i].info.msg_name,
        }),
    decreases ds.len(),
{
    let resolved = CtxEntryV {
        name: n,
        info: ActorInfoV {
            actor_name: Some(n),
            msg_name: st0.ctx[i].info.msg_name,
            table: st0.ctx[i].info.table,
        },
    };
    lemma_pass2_ctx_shape(st0, ds.drop_last());
    lemma_pass2_ctx_shape(st0, ds);
    assert(forall|x: int| 0 <= x < ds.len() - 1 ==> ds.drop_last()[x] == ds[x]);
    let stp = pass2(st0, ds.drop_last());
    if b == ds.len() - 1 {
        let s = ds[b]->State_0;
        // At the pairing step the entry still keys the name with its table.
        assert(stp.ctx[i].name == n);
        assert(stp.ctx[i].info.table == st0.ctx[i].info.table);
        assert(stp.ctx[i].info.msg_name == st0.ctx[i].info.msg_name);
        assert(forall|j: int| 0 <= j < stp.ctx.len() && j != i
            ==> (#[trigger] stp.ctx[j]).name != n);
        assert(forall|j: int| 0 <= j < i ==> (#[trigger] stp.ctx[j]).name != n);
        crate::table::lemma_ctx_find_at(stp.ctx, n, i);
        assert(ds.last() == ds[b]);
        lemma_ctx_set_actor_found(stp.ctx, n, i);
        assert(pass2(st0, ds).ctx == stp.ctx.update(i, resolved));
        assert(pass2(st0, ds).ctx[i] == resolved);
        let hd = DeclV::Handle(HandleDeclV {
            name: handle_name_of(n),
            msg_name: stp.ctx[i].info.msg_name,
        });
        assert(pass2(st0, ds).handles == stp.handles.push(hd));
        assert(pass2(st0, ds).handles[stp.handles.len() as int] == hd);
    } else {
        lemma_pass2_pairs_at(st0, ds.drop_last(), n, b, i);
        let k0 = choose|k: int| 0 <= k < stp.handles.len() && (#[trigger] stp.handles[k])
            == DeclV::Handle(HandleDeclV {
            name: handle_name_of(n),
            msg_name: st0.ctx[i].info.msg_name,
        });
        match ds.last() {
            DeclV::State(s2) => {
                match ctx_find(stp.ctx, s2.name) {
                    Some(info) => {
                        if info.table.len() > 0 && s2.fields is Named {
                            lemma_ctx_set_shape(stp.ctx, s2.name);
                            if s2.name == n {
                                // Resolving the same entry again writes the
                                // same resolution.
                                crate::table::lemma_ctx_find_at(stp.ctx, n, i);
                                lemma_ctx_set_actor_found(stp.ctx, n, i);
                                assert(pass2(st0, ds).ctx[i] == resolved);
                            } else {
                                lemma_ctx_find_some_key(stp.ctx, s2.name);
                                let j = choose|j: int| 0 <= j < stp.ctx.len()
                                    && (#[trigger] stp.ctx[j]).name == s2.name;
                                assert(forall|j2: int| 0 <= j2 < j
                                    ==> (#[trigger] stp.ctx[j2]).name != s2.name
                                    || stp.ctx[j2].name == s2.name);
                                // The resolved entry keeps its name, so the
                                // update stands elsewhere.
                                assert(pass2(st0, ds).ctx == ctx_set_actor(stp.ctx, s2.name));
                                assert(pass2(st0, ds).ctx[i].name == n);
                                assert(pass2(st0, ds).ctx[i].info.actor_name
                                    == stp.ctx[i].info.actor_name
                                    || pass2(st0, ds).ctx[i].info.actor_name == Some(n));
                                lemma_ctx_set_positions(stp.ctx, s2.name);
                                assert(pass2(st0, ds).ctx[i] == stp.ctx[i]);
                            }
                            assert(pass2(st0, ds).handles[k0] == stp.handles[k0]);
                        } else {
                            assert(pass2(st0, ds).ctx == stp.ctx);
                        }
                    }
                    None => {
                        assert(pass2(st0, ds).ctx == stp.ctx);
                    }
                }
            }
            _ => {
                assert(pass2(st0, ds).ctx == stp.ctx);
            }
        }
    }
}

/// Resolving one name leaves every entry of another name untouched.
pub proof fn lemma_ctx_set_positions(c: Seq<CtxEntryV>, x: Seq<char>)
    ensures
        forall|i: int| 0 <= i < c.len() && c[i].name != x ==> (#[trigger] ctx_set_actor(c, x)[i]) == c[i],
    decreases c.len(),
{
    if c.len() > 0 {
        let r = ctx_set_actor(c, x);
        if c[0].name == x {
            assert(forall|i: int| 1 <= i < c.len() ==> r[i] == c[i]);
        } else {
            lemma_ctx_set_positions(c.skip(1), x);
            lemma_ctx_set_shape(c.skip(1), x);
            let rr = ctx_set_actor(c.skip(1), x);
            assert(r =~= seq![c[0]] + rr);
            assert(r[0] == c[0]);
            assert(forall|i: int| 0 <= i < rr.len() ==> r[i + 1] == rr[i]);
            assert(forall|i: int| 0 <= i < c.len() - 1 ==> c.skip(1)[i] == c[i + 1]);
        }
    }
}

/// Counting accessors across a whole emission: entries under other names
/// contribute nothing to a handle's count, and the one entry under the name,
/// resolved with a non-empty table, contributes its methods alone.
pub proof fn lemma_count_emit_all(c: Seq<CtxEntryV>, n: Seq<char>, i: int, v: Seq<char>, kind: MethodKind)
    requires
        0 <= i < c.len(),
        c[i].name == n,
        forall|j: int| 0 <= j < c.len() && j != i ==> (#[trigger] c[j]).name != n,
        forall|j: int| 0 <= j < c.len() ==> ((#[trigger] c[j]).info.actor_name is None
            || c[j].info.actor_name == Some(c[j].name)),
        c[i].info.actor_name == Some(n),
        c[i].info.table.len() > 0,
    ensures
        count_acc(emit_all(c), handle_name_of(n), v, kind) == count_acc(
            emit_methods(handle_name_of(n), c[i].info.msg_name, c[i].info.table),
            handle_name_of(n), v, kind),
    decreases c.len(),
{
    let h = handle_name_of(n);
    assert(forall|j: int| 0 <= j < c.len() - 1 ==> c.drop_last()[j] == c[j]);
    let prev = emit_all(c.drop_last());
    let e = c.last();
    assert(c[c.len() - 1] == e);
    let tail = emit_entry(e);
    assert(emit_all(c) == prev + tail);
    lemma_count_concat(prev, tail, h, v, kind);
    if i == c.len() - 1 {
        // Every earlier entry is under another name.
        lemma_emit_all_other(c.drop_last(), n);
        assert forall|k: int| 0 <= k < prev.len() implies !is_acc(#[trigger] prev[k], h, v, kind) by {
            assert(!(prev[k] matches DeclV::Method(md) && md.handle_name == h));
        }
        lemma_count_zero(prev, h, v, kind);
        let meths = emit_methods(h, e.info.msg_name, e.info.table);
        assert(tail == seq![
            DeclV::HandleImpl(HandleImplDeclV { handle_name: h, state_name: n }),
            DeclV::StateImpl(StateImplDeclV { state_name: n, msg_name: e.info.msg_name }),
        ] + meths);
        lemma_count_concat(seq![
            DeclV::HandleImpl(HandleImplDeclV { handle_name: h, state_name: n }),
            DeclV::StateImpl(StateImplDeclV { state_name: n, msg_name: e.info.msg_name }),
        ], meths, h, v, kind);
        reveal_with_fuel(count_acc, 4);
        assert(count_acc(seq![
            DeclV::HandleImpl(HandleImplDeclV { handle_name: h, state_name: n }),
            DeclV::StateImpl(StateImplDeclV { state_name: n, msg_name: e.info.msg_name }),
        ], h, v, kind) == 0) by {
            let two = seq![
                DeclV::HandleImpl(HandleImplDeclV { handle_name: h, state_name: n }),
                DeclV::StateImpl(StateImplDeclV { state_name: n, msg_name: e.info.msg_name }),
            ];
            assert(two.drop_last() =~= seq![two[0]]);
            assert(seq![two[0]].drop_last() =~= Seq::<DeclV>::empty());
            assert(!is_acc(two[0], h, v, kind));
            assert(!is_acc(two[1], h, v, kind));
            assert(two.last() == two[1]);
            assert(two.drop_last().last() == two[0]);
        };
    } else {
        lemma_count_emit_all(c.drop_last(), n, i, v, kind);
        // The last entry is under another name: nothing it emits counts.
        assert(e.name != n);
        match e.info.actor_name {
            Some(actor) => {
                assert(actor == e.name);
                if e.info.table.len() > 0 {
                    let h2 = handle_name_of(actor);
                    if h2 == h {
                        lemma_handle_name_injective(actor, n);
                        assert(false);
                    }
                    lemma_emit_methods_handles(h2, e.info.msg_name, e.info.table);
                    assert forall|k: int| 0 <= k < tail.len()
                        implies !is_acc(#[trigger] tail[k], h, v, kind) by {
                        let meths2 = emit_methods(h2, e.info.msg_name, e.info.table);
                        if k >= 2 {
                            assert(tail[k] == meths2[k - 2]);
                        }
                    }
                    lemma_count_zero(tail, h, v, kind);
                } else {
                    assert(tail.len() == 0);
                    lemma_count_zero(tail, h, v, kind);
                }
            }
            None => {
                assert(tail.len() == 0);
                lemma_count_zero(tail, h, v, kind);
            }
        }
    }
}

/// A walk collects handle types and nothing else.
pub proof fn lemma_pass2_handles_kind(st0: Pass2V, ds: Seq<DeclV>)
    requires
        forall|k: int| 0 <= k < st0.handles.len() ==> (#[trigger] st0.handles[k]) is Handle,
    ensures
        forall|k: int| 0 <= k < pass2(st0, ds).handles.len() ==> (#[trigger] pass2(st0, ds).handles[k]) is Handle,
    decreases ds.len(),
{
    if ds.len() > 0 {
        lemma_pass2_handles_kind(st0, ds.drop_last());
        let stp = pass2(st0, ds.drop_last());
        let r = pass2(st0, ds).handles;
        assert(forall|k: int| 0 <= k < stp.handles.len() ==> r[k] == stp.handles[k]);
        if r.len() > stp.handles.len() {
            assert(r[r.len() - 1] is Handle);
        }
    }
}

/// Pairing correctness: for a message set and a state where the message set's
/// identifier is the state's identifier with the reserved suffix appended, no
/// other declaration derives that name, the state has named fields, and at
/// least one variant carries a reply field, synthesis yields the handle type,
/// and per variant: exactly one round-trip and one fire-and-forget method
/// when it carries a reply field, and none when it does not — whatever else
/// the namespace pairs.
pub proof fn lemma_pairing_correctness(ds: Seq<DeclV>, a: int, b: int, v: VariantV)
    requires
        0 <= a < ds.len(),
        0 <= b < ds.len(),
        a != b,
        ds[a] matches DeclV::MessageSet(m) && ends_with_msg(m.name),
        ds[b] matches DeclV::State(s) && s.name == strip_msg((ds[a]->MessageSet_0).name)
            && s.fields is Named,
        forall|i: int| 0 <= i < ds.len() && i != a ==> !(#[trigger] derives(ds[i], strip_msg(
            (ds[a]->MessageSet_0).name))),
        forall|i: int| 0 <= i < ds.len() && i != b ==> ((#[trigger] ds[i]) matches DeclV::State(s2)
            ==> s2.name != strip_msg((ds[a]->MessageSet_0).name)),
        forall|i: int| 0 <= i < ds.len() ==> (((#[trigger] ds[i]) is MessageSet) || (ds[i] is State)
            || (ds[i] is Other)),
        variant_names_unique((ds[a]->MessageSet_0).variants),
        exists|i: int| 0 <= i < (ds[a]->MessageSet_0).variants.len() && has_reply(
            (ds[a]->MessageSet_0).variants[i]),
        exists|i: int| 0 <= i < (ds[a]->MessageSet_0).variants.len()
            && (ds[a]->MessageSet_0).variants[i] == v,
    ensures
        ({
            let m = ds[a]->MessageSet_0;
            let out = spec_actors(ds);
            let h = handle_name_of(strip_msg(m.name));
            &&& exists|i: int| 0 <= i < out.len() && (#[trigger] out[i]) == DeclV::Handle(
                HandleDeclV { name: h, msg_name: m.name })
            &&& has_reply(v) ==> count_acc(out, h, v.name, MethodKind::RoundTrip) == 1
            &&& has_reply(v) ==> count_acc(out, h, v.name, MethodKind::FireForget) == 1
            &&& !has_reply(v) ==> count_acc(out, h, v.name, MethodKind::RoundTrip) == 0
                && count_acc(out, h, v.name, MethodKind::FireForget) == 0
        }),
{
    let m = ds[a]->MessageSet_0;
    let s = ds[b]->State_0;
    let n = strip_msg(m.name);
    let h = handle_name_of(n);
    let table = tbl_after(Seq::empty(), msgset_entries(m.variants));

    // Pass one leaves exactly one entry under the derived name: the message
    // set's own, unresolved, holding its request table.
    assert(derives(ds[a], n));
    lemma_pass1_entry_for(ds, n, a);
    let c1 = pass1_ctx(Seq::empty(), ds);
    let target = CtxEntryV {
        name: n,
        info: ActorInfoV { actor_name: None, msg_name: m.name, table: table },
    };
    let i = choose|i: int| 0 <= i < c1.len() && (#[trigger] c1[i]) == target
        && (forall|j: int| 0 <= j < c1.len() && j != i ==> (#[trigger] c1[j]).name != n);
    lemma_pass1_keys(Seq::empty(), ds, n);
    assert(forall|j: int| 0 <= j < c1.len() ==> (#[trigger] c1[j]).info.actor_name is None);

    // The table is non-empty: some variant carries a reply field.
    let iv = choose|x: int| 0 <= x < m.variants.len() && has_reply(m.variants[x]);
    lemma_msgset_entries_props(m.variants, m.variants[iv].name);
    lemma_tbl_after_props(Seq::empty(), msgset_entries(m.variants), m.variants[iv].name);
    assert(tbl_contains(table, m.variants[iv].name));
    assert(table.len() > 0) by {
        let x = choose|x: int| 0 <= x < table.len() && table[x].variant == m.variants[iv].name;
    };

    // Pass one's declaration rewrite keeps the shapes.
    let ds1 = pass1_decls(ds);
    assert(ds1.len() == ds.len());
    assert forall|x: int| 0 <= x < ds.len() implies #[trigger] ds1[x] == pass1_decl(ds[x]) by {}
    assert(ds1[b] == DeclV::State(s));

    // Pass two: the state pairs with that entry, resolving it and collecting
    // the handle type.
    let st0 = Pass2V { decls: Seq::empty(), ctx: c1, handles: Seq::empty() };
    lemma_pass2_pairs_at(st0, ds1, n, b, i);
    let p2 = pass2(st0, ds1);
    let resolved = CtxEntryV {
        name: n,
        info: ActorInfoV { actor_name: Some(n), msg_name: m.name, table: table },
    };
    assert(p2.ctx[i] == resolved);
    let hd = DeclV::Handle(HandleDeclV { name: h, msg_name: m.name });
    let k0 = choose|k: int| 0 <= k < p2.handles.len() && (#[trigger] p2.handles[k]) == hd;

    let em = emit_all(p2.ctx);
    let out = spec_actors(ds);
    assert(out == p2.decls + p2.handles + em);

    // The handle type stands in the output.
    lemma_pass2_decls_len(st0, ds1);
    assert(out[p2.decls.len() + k0] == hd);

    // Counting: only the one resolved entry's methods can match.
    lemma_pass2_ctx_shape(st0, ds1);
    let meths = emit_methods(h, m.name, table);
    assert forall|kind: MethodKind|
        count_acc(out, h, v.name, kind) == count_acc(meths, h, v.name, kind) by {
        lemma_count_concat(p2.decls + p2.handles, em, h, v.name, kind);
        lemma_count_concat(p2.decls, p2.handles, h, v.name, kind);
        assert forall|x: int| 0 <= x < ds1.len()
            implies !((#[trigger] ds1[x]) is Handle) && !(ds1[x] is HandleImpl)
                && !(ds1[x] is Method) by {
            assert(ds1[x] == pass1_decl(ds[x]));
        }
        lemma_pass2_decls_kinds(st0, ds1);
        assert forall|x: int| 0 <= x < p2.decls.len()
            implies !is_acc(#[trigger] p2.decls[x], h, v.name, kind) by {}
        lemma_count_zero(p2.decls, h, v.name, kind);
        lemma_pass2_handles_kind(st0, ds1);
        assert forall|x: int| 0 <= x < p2.handles.len()
            implies !is_acc(#[trigger] p2.handles[x], h, v.name, kind) by {}
        lemma_count_zero(p2.handles, h, v.name, kind);
        assert(forall|j: int| 0 <= j < p2.ctx.len() && j != i ==> (#[trigger] p2.ctx[j]).name != n);
        assert(forall|j: int| 0 <= j < p2.ctx.len() ==> ((#[trigger] p2.ctx[j]).info.actor_name is None
            || p2.ctx[j].info.actor_name == Some(p2.ctx[j].name)));
        lemma_count_emit_all(p2.ctx, n, i, v.name, kind);
    };

    // The table holds the request kind exactly when the variant carries a
    // reply field, once.
    lemma_tbl_after_props(Seq::empty(), msgset_entries(m.variants), v.name);
    lemma_msgset_entries_props(m.variants, v.name);
    assert(tbl_unique(table));
    let idxv = choose|x: int| 0 <= x < m.variants.len() && m.variants[x] == v;
    if has_reply(v) {
        assert(m.variants[idxv].name == v.name && has_reply(m.variants[idxv]));
        assert(es_has(msgset_entries(m.variants), v.name));
        assert(tbl_contains(table, v.name));
        lemma_count_emit_methods(h, m.name, table, h, v.name, MethodKind::RoundTrip);
        lemma_count_emit_methods(h, m.name, table, h, v.name, MethodKind::FireForget);
    } else {
        assert(!tbl_contains(table, v.name)) by {
            if tbl_contains(table, v.name) {
                assert(es_has(msgset_entries(m.variants), v.name));
                let j = choose|j: int| 0 <= j < m.variants.len()
                    && m.variants[j].name == v.name && has_reply(m.variants[j]);
                if j != idxv {
                    assert(m.variants[j].name != m.variants[idxv].name);
                    assert(false);
                }
                assert(false);
            }
        };
        lemma_count_emit_methods(h, m.name, table, h, v.name, MethodKind::RoundTrip);
        lemma_count_emit_methods(h, m.name, table, h, v.name, MethodKind::FireForget);
    }
}

/// A state no context entry names passes through at its own position,
/// whatever else the walk pairs.
pub proof fn lemma_pass2_unpaired_at(st0: Pass2V, ds: Seq<DeclV>, b: int)
    requires
        0 <= b < ds.len(),
        ds[b] matches DeclV::State(s) && (forall|j: int| 0 <= j < st0.ctx.len()
            ==> (#[trigger] st0.ctx[j]).name != s.name),
    ensures
        pass2(st0, ds).decls.len() == st0.decls.len() + ds.len(),
        pass2(st0, ds).decls[st0.decls.len() + b] == ds[b],
    decreases ds.len(),
{
    lemma_pass2_decls_len(st0, ds);
    lemma_pass2_decls_len(st0, ds.drop_last());
    if b == ds.len() - 1 {
        let s = ds[b]->State_0;
        let stp = pass2(st0, ds.drop_last());
        lemma_pass2_ctx_shape(st0, ds.drop_last());
        assert(forall|j: int| 0 <= j < stp.ctx.len() ==> (#[trigger] stp.ctx[j]).name != s.name);
        crate::table::lemma_ctx_find_absent(stp.ctx, s.name);
        assert(ds.last() == ds[b]);
    } else {
        lemma_pass2_unpaired_at(st0, ds.drop_last(), b);
        assert(ds.drop_last()[b] == ds[b]);
    }
}

/// A walk emits, among the rewritten declarations, only what it was given:
/// no synthesized shape appears there.
pub proof fn lemma_pass2_decls_kinds(st0: Pass2V, ds: Seq<DeclV>)
    requires
        forall|i: int| 0 <= i < st0.decls.len() ==> !((#[trigger] st0.decls[i]) is Handle)
            && !(st0.decls[i] is HandleImpl) && !(st0.decls[i] is Method),
        forall|i: int| 0 <= i < ds.len() ==> !((#[trigger] ds[i]) is Handle)
            && !(ds[i] is HandleImpl) && !(ds[i] is Method),
    ensures
        forall|i: int| 0 <= i < pass2(st0, ds).decls.len() ==> !((#[trigger] pass2(st0, ds).decls[i]) is Handle)
            && !(pass2(st0, ds).decls[i] is HandleImpl) && !(pass2(st0, ds).decls[i] is Method),
    decreases ds.len(),
{
    if ds.len() > 0 {
        assert(forall|i: int| 0 <= i < ds.len() - 1 ==> ds.drop_last()[i] == ds[i]);
        lemma_pass2_decls_kinds(st0, ds.drop_last());
        assert(ds[ds.len() - 1] == ds.last());
        let stp = pass2(st0, ds.drop_last());
        let r = pass2(st0, ds).decls;
        assert(forall|i: int| 0 <= i < stp.decls.len() ==> r[i] == stp.decls[i]);
        assert(!(r[r.len() - 1] is Handle) && !(r[r.len() - 1] is HandleImpl)
            && !(r[r.len() - 1] is Method));
    }
}

/// No pairing without a match: a state whose derived name no message set of
/// the namespace shares passes through unmodified, and nothing is synthesized
/// for it — no handle type of its name, no constructor on it, no accessor
/// method on its handle — whatever the rest of the namespace pairs.
pub proof fn lemma_no_pairing_without_match(ds: Seq<DeclV>, b: int)
    requires
        0 <= b < ds.len(),
        ds[b] is State,
        forall|i: int| 0 <= i < ds.len() ==> !(#[trigger] derives(ds[i], (ds[b]->State_0).name)),
        forall|i: int| 0 <= i < ds.len() ==> (((#[trigger] ds[i]) is MessageSet) || (ds[i] is State)
            || (ds[i] is Other)),
    ensures
        ({
            let out = spec_actors(ds);
            let n = (ds[b]->State_0).name;
            &&& out[b] == ds[b]
            &&& forall|i: int| 0 <= i < out.len() ==> !((#[trigger] out[i]) matches DeclV::Handle(hd)
                && hd.name == handle_name_of(n))
            &&& forall|i: int| 0 <= i < out.len() ==> !((#[trigger] out[i]) matches DeclV::HandleImpl(hd)
                && hd.state_name == n)
            &&& forall|i: int| 0 <= i < out.len() ==> !((#[trigger] out[i]) matches DeclV::Method(md)
                && md.handle_name == handle_name_of(n))
        }),
{
    let s = ds[b]->State_0;
    let n = s.name;
    let c1 = pass1_ctx(Seq::empty(), ds);

    // No message set derives the state's name: the context has no entry under
    // it, and nothing pass one built is resolved.
    lemma_pass1_keys(Seq::empty(), ds, n);
    assert(!(exists|i: int| 0 <= i < c1.len() && c1[i].name == n));
    assert(forall|i: int| 0 <= i < c1.len() ==> (#[trigger] c1[i]).info.actor_name is None);
    assert(forall|j: int| 0 <= j < c1.len() ==> (#[trigger] c1[j]).name != n);

    let ds1 = pass1_decls(ds);
    assert(ds1.len() == ds.len());
    assert forall|i: int| 0 <= i < ds.len() implies #[trigger] ds1[i] == pass1_decl(ds[i]) by {}
    assert(ds1[b] == DeclV::State(s));

    let st0 = Pass2V { decls: Seq::empty(), ctx: c1, handles: Seq::empty() };
    let p2 = pass2(st0, ds1);
    let out = spec_actors(ds);
    assert(out == p2.decls + p2.handles + emit_all(p2.ctx));

    // The state finds no entry and passes through.
    lemma_pass2_unpaired_at(st0, ds1, b);
    assert(out[b] == p2.decls[b]);
    assert(out[b] == ds[b]);

    // No rewritten declaration is a synthesized shape.
    assert forall|i: int| 0 <= i < ds1.len()
        implies !((#[trigger] ds1[i]) is Handle) && !(ds1[i] is HandleImpl)
            && !(ds1[i] is Method) by {
        assert(ds1[i] == pass1_decl(ds[i]));
    }
    lemma_pass2_decls_kinds(st0, ds1);

    // No collected handle type carries this state's handle name.
    lemma_pass2_handles_nokey(st0, ds1, n);

    // The entries that emit are all under other names, each resolved to its
    // own name if at all.
    lemma_pass2_ctx_shape(st0, ds1);
    assert(forall|i: int| 0 <= i < p2.ctx.len() ==> (#[trigger] p2.ctx[i]).name != n);
    assert(forall|i: int| 0 <= i < p2.ctx.len() ==> ((#[trigger] p2.ctx[i]).info.actor_name is None
        || p2.ctx[i].info.actor_name == Some(p2.ctx[i].name)));
    lemma_emit_all_other(p2.ctx, n);

    let em = emit_all(p2.ctx);
    assert forall|i: int| 0 <= i < out.len()
        implies !((#[trigger] out[i]) matches DeclV::Handle(hd) && hd.name == handle_name_of(n))
            && !(out[i] matches DeclV::HandleImpl(hd2) && hd2.state_name == n)
            && !(out[i] matches DeclV::Method(md) && md.handle_name == handle_name_of(n)) by {
        if i < p2.decls.len() {
            assert(out[i] == p2.decls[i]);
        } else if i < p2.decls.len() + p2.handles.len() {
            assert(out[i] == p2.handles[i - p2.decls.len()]);
        } else {
            assert(out[i] == em[i - p2.decls.len() - p2.handles.len()]);
        }
    }
}

/// A walk appends one declaration per declaration walked, and one that is no
/// state passes through at its own position.
pub proof fn lemma_pass2_at(st0: Pass2V, ds: Seq<DeclV>, j: int)
    requires
        0 <= j < ds.len(),
        !(ds[j] is State),
    ensures
        pass2(st0, ds).decls.len() == st0.decls.len() + ds.len(),
        pass2(st0, ds).decls[st0.decls.len() + j] == ds[j],
    decreases ds.len(),
{
    lemma_pass2_decls_len(st0, ds);
    lemma_pass2_decls_len(st0, ds.drop_last());
    if j == ds.len() - 1 {
        assert(ds.last() == ds[j]);
    } else {
        lemma_pass2_at(st0, ds.drop_last(), j);
        assert(ds.drop_last()[j] == ds[j]);
    }
}

/// Idempotent skip of malformed input, first half: a message set without the
/// reserved suffix passes through unmodified, at its own position, whatever
/// else the namespace holds — and, the pipeline being a function of the
/// namespace alone, it does so run after run.
pub proof fn lemma_skip_unsuffixed(ds: Seq<DeclV>, j: int)
    requires
        0 <= j < ds.len(),
        ds[j] matches DeclV::MessageSet(m) && !ends_with_msg(m.name),
    ensures
        spec_actors(ds)[j] == ds[j],
{
    let ds1 = pass1_decls(ds);
    assert(ds1.len() == ds.len());
    assert forall|i: int| 0 <= i < ds.len() implies #[trigger] ds1[i] == pass1_decl(ds[i]) by {}
    assert(ds1[j] == ds[j]);
    let c1 = pass1_ctx(Seq::empty(), ds);
    let st0 = Pass2V { decls: Seq::empty(), ctx: c1, handles: Seq::empty() };
    lemma_pass2_at(st0, ds1, j);
    let p2 = pass2(st0, ds1);
    assert(p2.decls[j] == ds1[j]);
    let out = spec_actors(ds);
    assert(out == p2.decls + p2.handles + emit_all(p2.ctx));
    assert(out[j] == p2.decls[j]);
}

/// Idempotent skip of malformed input, second half: a request kind no
/// reply-carrying variant of that name declares — in particular any variant
/// without named fields — never appears in the message set's request table.
pub proof fn lemma_malformed_variant_absent(m: MessageSetDeclV, k: Seq<char>)
    requires
        forall|i: int| 0 <= i < m.variants.len() ==> !(m.variants[i].name == k && has_reply(
            m.variants[i])),
    ensures
        !tbl_contains(tbl_after(Seq::empty(), msgset_entries(m.variants)), k),
{
    lemma_msgset_entries_props(m.variants, k);
    lemma_tbl_after_props(Seq::empty(), msgset_entries(m.variants), k);
}

} // verus!
