//! The synthesis pipeline: scanning the namespace, processing message sets,
//! pairing them with states, and emitting the actor scaffolding.
//!
//! The pipeline runs in three passes over the namespace, data flowing strictly
//! forward. Pass one rewrites every reply field of every suffixed message set
//! into a reply slot and accumulates a request table per actor logical name.
//! Pass two pairs each named-field state with the context entry of its own
//! name, appends the mailbox-receiver field, and collects one handle type per
//! pairing. Pass three emits, per resolved pairing, the handle constructor,
//! the state's private constructor and dispatch loop, and two accessor methods
//! per request-table entry.
//!
//! Every spec function here states what a pass produces; the executable
//! functions are proved equal to them, so a run over a fixed input yields one
//! fixed output.

use vstd::prelude::*;
use crate::decl::Decl;
use crate::decl::DeclV;
use crate::decl::Field;
use crate::decl::FieldV;
use crate::decl::FieldTy;
use crate::decl::FieldTyV;
use crate::decl::HandleDecl;
use crate::decl::HandleDeclV;
use crate::decl::HandleImplDecl;
use crate::decl::HandleImplDeclV;
use crate::decl::MessageSetDecl;
use crate::decl::MessageSetDeclV;
use crate::decl::MethodDecl;
use crate::decl::MethodDeclV;
use crate::decl::MethodKind;
use crate::decl::StateDecl;
use crate::decl::StateDeclV;
use crate::decl::StateFields;
use crate::decl::StateFieldsV;
use crate::decl::StateImplDecl;
use crate::decl::StateImplDeclV;
use crate::decl::Variant;
use crate::decl::VariantV;
use crate::decl::VariantFields;
use crate::decl::VariantFieldsV;
use crate::decl::decls_view;
use crate::decl::fields_view;
use crate::decl::variants_view;
use crate::names::ID;
use crate::names::ends_with_msg;
use crate::names::get_actor_name;
use crate::names::snake_of;
use crate::names::strip_msg;
use crate::names::to_snake;
use crate::table::ActorInfo;
use crate::table::ActorInfoV;
use crate::table::Context;
use crate::table::CtxEntry;
use crate::table::CtxEntryV;
use crate::table::ReqEntry;
use crate::table::ReqEntryV;
use crate::table::RequestTable;
use crate::table::ctx_view;
use crate::table::lemma_ctx_find_absent;
use crate::table::lemma_ctx_find_at;
use crate::table::ctx_find;
use crate::table::tbl_insert;
use vstd::string::StrSliceExecFns;
use vstd::string::StringExecFns;

verus! {

/// The reserved reply-field name: a named field called `resp` carrying an
/// ordinary declared type designates its variant as a request kind.
pub open spec fn is_reply_field(f: FieldV) -> bool {
    f.name == "resp"@ && f.ty is Plain
}

/// A reply field rewritten into a single-use reply slot for its original
/// type; every other field is left untouched. A field whose type is already a
/// reply slot or a receiver endpoint is not rewritten again, so the rewrite is
/// idempotent.
pub open spec fn spec_rewrite_field(f: FieldV) -> FieldV {
    if is_reply_field(f) {
        FieldV { name: f.name, ty: FieldTyV::ReplySlot(f.ty->Plain_0) }
    } else {
        f
    }
}

/// The request-table entries one variant's named fields contribute, in field
/// order: one entry per reply field, mapping the variant to the field's
/// original type.
pub open spec fn field_entries(vname: Seq<char>, fs: Seq<FieldV>) -> Seq<ReqEntryV>
    decreases fs.len(),
{
    if fs.len() == 0 {
        Seq::empty()
    } else {
        field_entries(vname, fs.drop_last()) + if is_reply_field(fs.last()) {
            seq![ReqEntryV { variant: vname, resp_ty: fs.last().ty->Plain_0 }]
        } else {
            Seq::empty()
        }
    }
}

/// A variant with named fields has its reply fields rewritten; a variant of
/// any other shape passes through unmodified.
pub open spec fn spec_rewrite_variant(v: VariantV) -> VariantV {
    match v.fields {
        VariantFieldsV::Named(fs) => VariantV {
            name: v.name,
            fields: VariantFieldsV::Named(fs.map_values(|f: FieldV| spec_rewrite_field(f))),
        },
        VariantFieldsV::Unnamed => v,
    }
}

/// What one variant contributes to the request table: nothing unless it has
/// named fields.
pub open spec fn variant_entries(v: VariantV) -> Seq<ReqEntryV> {
    match v.fields {
        VariantFieldsV::Named(fs) => field_entries(v.name, fs),
        VariantFieldsV::Unnamed => Seq::empty(),
    }
}

/// The request-table entries a whole message set contributes, in declaration
/// order.
pub open spec fn msgset_entries(vs: Seq<VariantV>) -> Seq<ReqEntryV>
    decreases vs.len(),
{
    if vs.len() == 0 {
        Seq::empty()
    } else {
        msgset_entries(vs.drop_last()) + variant_entries(vs.last())
    }
}

pub open spec fn spec_rewrite_msgset(m: MessageSetDeclV) -> MessageSetDeclV {
    MessageSetDeclV {
        name: m.name,
        variants: m.variants.map_values(|v: VariantV| spec_rewrite_variant(v)),
    }
}

/// A table after a sequence of keyed insertions, in order.
pub open spec fn tbl_after(t: Seq<ReqEntryV>, es: Seq<ReqEntryV>) -> Seq<ReqEntryV>
    decreases es.len(),
{
    if es.len() == 0 {
        t
    } else {
        tbl_insert(tbl_after(t, es.drop_last()), es.last())
    }
}

pub proof fn lemma_tbl_after_concat(t: Seq<ReqEntryV>, a: Seq<ReqEntryV>, b: Seq<ReqEntryV>)
    ensures
        tbl_after(t, a + b) == tbl_after(tbl_after(t, a), b),
    decreases b.len(),
{
    if b.len() == 0 {
        assert(a + b =~= a);
    } else {
        lemma_tbl_after_concat(t, a, b.drop_last());
        assert((a + b).drop_last() =~= a + b.drop_last());
        assert((a + b).last() == b.last());
    }
}

/// Processes one message set: rewrites each reply field of each named-field
/// variant into a reply slot, and records (request kind, original reply type)
/// into the owning actor's request table, in declaration order. Variants
/// without named fields pass through untouched and contribute nothing.
pub fn process_enum(item: &mut MessageSetDecl, info: &mut ActorInfo)
    ensures
        final(item)@ == spec_rewrite_msgset(old(item)@),
        final(info)@.actor_name == old(info)@.actor_name,
        final(info)@.msg_name == old(info)@.msg_name,
        final(info)@.table == tbl_after(old(info)@.table, msgset_entries(old(item)@.variants)),
{
    let ghost orig = old(item)@.variants;
    let ghost t0 = old(info)@.table;
    let mut new_variants: Vec<Variant> = Vec::new();
    let ghost mut k: int = 0;
    while item.variants.len() > 0
        invariant
            0 <= k <= orig.len(),
            k == new_variants@.len(),
            item.name@ == old(item).name@,
            orig == variants_view(old(item).variants@),
            t0 == old(info)@.table,
            item.variants@.len() == orig.len() - k,
            variants_view(item.variants@) =~= orig.skip(k),
            variants_view(new_variants@) =~= orig.take(k).map_values(|v: VariantV| spec_rewrite_variant(v)),
            info@.actor_name == old(info)@.actor_name,
            info@.msg_name == old(info)@.msg_name,
            info@.table == tbl_after(t0, msgset_entries(orig.take(k))),
        decreases item.variants@.len(),
    {
        let ghost pre = item.variants@;
        let v = item.variants.remove(0);
        proof {
            crate::decl::lemma_variants_view_index(pre);
            crate::decl::lemma_variants_view_remove0(pre);
            assert(variants_view(pre)[0] == pre[0]@);
            assert(v@ == orig.skip(k)[0]);
            assert(v@ == orig[k]);
            assert(variants_view(item.variants@) == orig.skip(k).skip(1));
            assert(orig.skip(k).skip(1) =~= orig.skip(k + 1));
        }
        let ghost vv = v@;
        let Variant { name: vname, fields } = v;
        match fields {
            VariantFields::Named(mut fs) => {
                let ghost of = fields_view(fs@);
                let ghost tv = info@.table;
                let mut new_fields: Vec<Field> = Vec::new();
                let ghost mut j: int = 0;
                while fs.len() > 0
                    invariant
                        0 <= j <= of.len(),
                        j == new_fields@.len(),
                        fs@.len() == of.len() - j,
                        fields_view(fs@) =~= of.skip(j),
                        fields_view(new_fields@) =~= of.take(j).map_values(|f: FieldV| spec_rewrite_field(f)),
                        info@.actor_name == old(info)@.actor_name,
                        info@.msg_name == old(info)@.msg_name,
                        info@.table == tbl_after(tv, field_entries(vv.name, of.take(j))),
                        vname@ == vv.name,
                    decreases fs@.len(),
                {
                    let ghost fpre = fs@;
                    let f = fs.remove(0);
                    proof {
                        crate::decl::lemma_fields_view_index(fpre);
                        crate::decl::lemma_fields_view_remove0(fpre);
                        assert(fields_view(fpre)[0] == fpre[0]@);
                        assert(f@ == of.skip(j)[0]);
                        assert(f@ == of[j]);
                        assert(fields_view(fs@) == of.skip(j).skip(1));
                        assert(of.skip(j).skip(1) =~= of.skip(j + 1));
                        assert(of.take(j + 1).drop_last() =~= of.take(j));
                        assert(of.take(j + 1).last() == of[j]);
                    }
                    let resp_lit = String::from_str("resp");
                    let is_resp = f.name == resp_lit;
                    let Field { name: fname, ty } = f;
                    let ghost nfpre = new_fields@;
                    match ty {
                        FieldTy::Plain(t) => {
                            if is_resp {
                                let ghost e = ReqEntryV { variant: vv.name, resp_ty: of[j].ty->Plain_0 };
                                let t2 = t.clone();
                                info.table.insert(vname.clone(), t);
                                new_fields.push(Field { name: fname, ty: FieldTy::ReplySlot(t2) });
                                proof {
                                    crate::decl::lemma_fields_view_push(nfpre, new_fields@.last());
                                    assert(is_reply_field(of[j]));
                                    assert(new_fields@.last()@ == spec_rewrite_field(of[j]));
                                    assert(field_entries(vv.name, of.take(j + 1))
                                        =~= field_entries(vv.name, of.take(j)).push(e));
                                    assert(field_entries(vv.name, of.take(j + 1)).drop_last()
                                        =~= field_entries(vv.name, of.take(j)));
                                    assert(info@.table == tbl_after(tv, field_entries(vv.name, of.take(j + 1))));
                                    assert(fields_view(new_fields@)
                                        =~= of.take(j + 1).map_values(|fv: FieldV| spec_rewrite_field(fv)));
                                }
                            } else {
                                new_fields.push(Field { name: fname, ty: FieldTy::Plain(t) });
                                proof {
                                    crate::decl::lemma_fields_view_push(nfpre, new_fields@.last());
                                    assert(!is_reply_field(of[j]));
                                    assert(new_fields@.last()@ == spec_rewrite_field(of[j]));
                                    assert(field_entries(vv.name, of.take(j + 1))
                                        =~= field_entries(vv.name, of.take(j)));
                                    assert(fields_view(new_fields@)
                                        =~= of.take(j + 1).map_values(|fv: FieldV| spec_rewrite_field(fv)));
                                }
                            }
                        }
                        other => {
                            new_fields.push(Field { name: fname, ty: other });
                            proof {
                                crate::decl::lemma_fields_view_push(nfpre, new_fields@.last());
                                assert(!is_reply_field(of[j]));
                                assert(new_fields@.last()@ == spec_rewrite_field(of[j]));
                                assert(field_entries(vv.name, of.take(j + 1))
                                    =~= field_entries(vv.name, of.take(j)));
                                assert(fields_view(new_fields@)
                                    =~= of.take(j + 1).map_values(|fv: FieldV| spec_rewrite_field(fv)));
                            }
                        }
                    }
                    proof {
                        j = j + 1;
                    }
                }
                proof {
                    assert(of.take(j) =~= of);
                    assert(fields_view(new_fields@) =~= of.map_values(|f: FieldV| spec_rewrite_field(f)));
                    assert(info@.table == tbl_after(tv, field_entries(vv.name, of)));
                }
                let ghost nvpre = new_variants@;
                new_variants.push(Variant { name: vname, fields: VariantFields::Named(new_fields) });
                proof {
                    crate::decl::lemma_variants_view_push(nvpre, new_variants@.last());
                    assert(new_variants@.last()@ == spec_rewrite_variant(orig[k]));
                    assert(orig.take(k + 1).drop_last() =~= orig.take(k));
                    assert(orig.take(k + 1).last() == orig[k]);
                    assert(variant_entries(orig[k]) == field_entries(vv.name, of));
                    assert(msgset_entries(orig.take(k + 1))
                        =~= msgset_entries(orig.take(k)) + variant_entries(orig[k]));
                    lemma_tbl_after_concat(t0, msgset_entries(orig.take(k)), variant_entries(orig[k]));
                    assert(info@.table == tbl_after(t0, msgset_entries(orig.take(k + 1))));
                    assert(variants_view(new_variants@)
                        =~= orig.take(k + 1).map_values(|v2: VariantV| spec_rewrite_variant(v2)));
                }
            }
            VariantFields::Unnamed => {
                let ghost nvpre = new_variants@;
                new_variants.push(Variant { name: vname, fields: VariantFields::Unnamed });
                proof {
                    crate::decl::lemma_variants_view_push(nvpre, new_variants@.last());
                    assert(new_variants@.last()@ == spec_rewrite_variant(orig[k]));
                    assert(orig.take(k + 1).drop_last() =~= orig.take(k));
                    assert(orig.take(k + 1).last() == orig[k]);
                    assert(msgset_entries(orig.take(k + 1))
                        =~= msgset_entries(orig.take(k)) + variant_entries(orig[k]));
                    assert(variant_entries(orig[k]) =~= Seq::<ReqEntryV>::empty());
                    assert(msgset_entries(orig.take(k)) + Seq::<ReqEntryV>::empty()
                        =~= msgset_entries(orig.take(k)));
                    assert(info@.table == tbl_after(t0, msgset_entries(orig.take(k + 1))));
                    assert(variants_view(new_variants@)
                        =~= orig.take(k + 1).map_values(|v2: VariantV| spec_rewrite_variant(v2)));
                }
            }
        }
        proof {
            k = k + 1;
        }
    }
    proof {
        assert(orig.take(k) =~= orig);
        assert(variants_view(new_variants@) =~= orig.map_values(|v2: VariantV| spec_rewrite_variant(v2)));
    }
    item.variants = new_variants;
    proof {
        assert(item@.variants =~= spec_rewrite_msgset(old(item)@).variants);
        assert(item@.name == spec_rewrite_msgset(old(item)@).name);
    }
}

/// The mailbox-receiver field appended to a paired state: it holds the
/// receiving endpoint for the actor's message type.
pub open spec fn receiver_field(msg_name: Seq<char>) -> FieldV {
    FieldV { name: "receiver"@, ty: FieldTyV::Receiver(msg_name) }
}

/// A paired state augmented with the mailbox-receiver field; a state of any
/// other field shape is left unmodified.
pub open spec fn spec_augment_state(s: StateDeclV, msg_name: Seq<char>) -> StateDeclV {
    match s.fields {
        StateFieldsV::Named(fs) => StateDeclV {
            name: s.name,
            fields: StateFieldsV::Named(fs.push(receiver_field(msg_name))),
        },
        StateFieldsV::Other => s,
    }
}

/// Processes one paired state: appends the mailbox's receiving endpoint to its
/// named fields.
pub fn process_struct(item: &mut StateDecl, info: &ActorInfo)
    ensures
        final(item)@ == spec_augment_state(old(item)@, info@.msg_name),
{
    let receiver = Field {
        name: String::from_str("receiver"),
        ty: FieldTy::Receiver(info.msg_name.clone()),
    };
    match &mut item.fields {
        StateFields::Named(fs) => {
            fs.push(receiver);
            proof {
                assert(fields_view(fs@) =~= fields_view((old(item).fields->Named_0)@).push(
                    receiver_field(info@.msg_name)));
            }
        }
        StateFields::Other => {}
    }
}

/// Pass one's effect on one declaration: a suffixed message set is rewritten,
/// everything else is untouched.
pub open spec fn pass1_decl(d: DeclV) -> DeclV {
    match d {
        DeclV::MessageSet(m) => if ends_with_msg(m.name) {
            DeclV::MessageSet(spec_rewrite_msgset(m))
        } else {
            d
        },
        _ => d,
    }
}

pub open spec fn pass1_decls(ds: Seq<DeclV>) -> Seq<DeclV> {
    ds.map_values(|d: DeclV| pass1_decl(d))
}

/// One suffixed message set folded into the context: merged into the first
/// entry under its derived name, or appended as a fresh entry whose owning
/// message identifier is this set's.
pub open spec fn ctx_apply_msgset(c: Seq<CtxEntryV>, name: Seq<char>, m: MessageSetDeclV) -> Seq<CtxEntryV>
    decreases c.len(),
{
    if c.len() == 0 {
        seq![CtxEntryV {
            name: name,
            info: ActorInfoV {
                actor_name: None,
                msg_name: m.name,
                table: tbl_after(Seq::empty(), msgset_entries(m.variants)),
            },
        }]
    } else if c[0].name == name {
        seq![CtxEntryV {
            name: c[0].name,
            info: ActorInfoV {
                actor_name: c[0].info.actor_name,
                msg_name: c[0].info.msg_name,
                table: tbl_after(c[0].info.table, msgset_entries(m.variants)),
            },
        }] + c.skip(1)
    } else {
        seq![c[0]] + ctx_apply_msgset(c.skip(1), name, m)
    }
}

pub proof fn lemma_ctx_apply_msgset_found(c: Seq<CtxEntryV>, name: Seq<char>, m: MessageSetDeclV, i: int)
    requires
        0 <= i < c.len(),
        c[i].name == name,
        forall|j: int| 0 <= j < i ==> c[j].name != name,
    ensures
        ctx_apply_msgset(c, name, m) == c.update(i, CtxEntryV {
            name: c[i].name,
            info: ActorInfoV {
                actor_name: c[i].info.actor_name,
                msg_name: c[i].info.msg_name,
                table: tbl_after(c[i].info.table, msgset_entries(m.variants)),
            },
        }),
    decreases i,
{
    if i == 0 {
        assert(ctx_apply_msgset(c, name, m) =~= c.update(0, CtxEntryV {
            name: c[0].name,
            info: ActorInfoV {
                actor_name: c[0].info.actor_name,
                msg_name: c[0].info.msg_name,
                table: tbl_after(c[0].info.table, msgset_entries(m.variants)),
            },
        }));
    } else {
        assert(forall|j: int| 0 <= j < i - 1 ==> c.skip(1)[j] == c[j + 1]);
        lemma_ctx_apply_msgset_found(c.skip(1), name, m, i - 1);
        assert(ctx_apply_msgset(c, name, m) =~= c.update(i, CtxEntryV {
            name: c[i].name,
            info: ActorInfoV {
                actor_name: c[i].info.actor_name,
                msg_name: c[i].info.msg_name,
                table: tbl_after(c[i].info.table, msgset_entries(m.variants)),
            },
        }));
    }
}

pub proof fn lemma_ctx_apply_msgset_absent(c: Seq<CtxEntryV>, name: Seq<char>, m: MessageSetDeclV)
    requires
        forall|j: int| 0 <= j < c.len() ==> c[j].name != name,
    ensures
        ctx_apply_msgset(c, name, m) == c.push(CtxEntryV {
            name: name,
            info: ActorInfoV {
                actor_name: None,
                msg_name: m.name,
                table: tbl_after(Seq::empty(), msgset_entries(m.variants)),
            },
        }),
    decreases c.len(),
{
    if c.len() == 0 {
        assert(ctx_apply_msgset(c, name, m) =~= c.push(ctx_apply_msgset(c, name, m)[0]));
    } else {
        assert(forall|j: int| 0 <= j < c.len() - 1 ==> c.skip(1)[j] == c[j + 1]);
        lemma_ctx_apply_msgset_absent(c.skip(1), name, m);
        assert(ctx_apply_msgset(c, name, m) =~= c.push(CtxEntryV {
            name: name,
            info: ActorInfoV {
                actor_name: None,
                msg_name: m.name,
                table: tbl_after(Seq::empty(), msgset_entries(m.variants)),
            },
        }));
    }
}

/// Pass one's effect on the context: only suffixed message sets accumulate.
pub open spec fn pass1_step(c: Seq<CtxEntryV>, d: DeclV) -> Seq<CtxEntryV> {
    match d {
        DeclV::MessageSet(m) => if ends_with_msg(m.name) {
            ctx_apply_msgset(c, strip_msg(m.name), m)
        } else {
            c
        },
        _ => c,
    }
}

/// The context after pass one has scanned a sequence of declarations.
pub open spec fn pass1_ctx(c0: Seq<CtxEntryV>, ds: Seq<DeclV>) -> Seq<CtxEntryV>
    decreases ds.len(),
{
    if ds.len() == 0 {
        c0
    } else {
        pass1_step(pass1_ctx(c0, ds.drop_last()), ds.last())
    }
}

/// Pass one: rewrites every suffixed message set in place and accumulates the
/// request tables, keyed by the derived actor name, in first-sighting order.
pub fn pass1(ns: Vec<Decl>, ctx: &mut Context) -> (out: Vec<Decl>)
    ensures
        decls_view(out@) == pass1_decls(decls_view(ns@)),
        final(ctx)@ == pass1_ctx(old(ctx)@, decls_view(ns@)),
{
    let ghost ds = decls_view(ns@);
    let ghost c0 = old(ctx)@;
    let mut ns = ns;
    let mut out: Vec<Decl> = Vec::new();
    let ghost mut k: int = 0;
    while ns.len() > 0
        invariant
            0 <= k <= ds.len(),
            k == out@.len(),
            ds.len() == k + ns@.len(),
            decls_view(ns@) =~= ds.skip(k),
            decls_view(out@) =~= ds.take(k).map_values(|d: DeclV| pass1_decl(d)),
            ctx@ == pass1_ctx(c0, ds.take(k)),
        decreases ns@.len(),
    {
        let ghost pre = ns@;
        let d = ns.remove(0);
        proof {
            crate::decl::lemma_decls_view_index(pre);
            crate::decl::lemma_decls_view_remove0(pre);
            assert(decls_view(pre)[0] == pre[0]@);
            assert(d@ == ds.skip(k)[0]);
            assert(d@ == ds[k]);
            assert(decls_view(ns@) == ds.skip(k).skip(1));
            assert(ds.skip(k).skip(1) =~= ds.skip(k + 1));
            assert(ds.take(k + 1).drop_last() =~= ds.take(k));
            assert(ds.take(k + 1).last() == ds[k]);
        }
        let ghost dv = d@;
        let ghost opre = out@;
        let ghost cpre = ctx@;
        match d {
            Decl::MessageSet(mut m) => {
                let ghost mv = m@;
                let name_opt = get_actor_name(ID::RemoveMsg(m.name.clone()));
                match name_opt {
                    Some(name) => {
                        proof {
                            assert(ends_with_msg(mv.name));
                            assert(name@ == strip_msg(mv.name));
                        }
                        match ctx.index_of(&name) {
                            Some(i2) => {
                                let ghost epre = ctx.entries@;
                                let mut entry = ctx.entries.remove(i2);
                                proof {
                                    crate::table::lemma_ctx_view_index(epre);
                                    assert(crate::table::ctx_view(epre)[i2 as int] == epre[i2 as int]@);
                                    assert(entry@ == cpre[i2 as int]);
                                }
                                process_enum(&mut m, &mut entry.info);
                                let ghost enew = entry@;
                                ctx.entries.insert(i2, entry);
                                proof {
                                    crate::table::lemma_ctx_view_remove(epre, i2 as int);
                                    crate::table::lemma_ctx_view_insert(epre.remove(i2 as int), i2 as int, ctx.entries@[i2 as int]);
                                    assert(ctx.entries@[i2 as int]@ == enew);
                                    assert(ctx@ == crate::table::ctx_view(epre).remove(i2 as int).insert(i2 as int, enew));
                                    assert(ctx@ =~= cpre.update(i2 as int, enew));
                                    lemma_ctx_apply_msgset_found(cpre, name@, mv, i2 as int);
                                    assert(ctx@ == ctx_apply_msgset(cpre, name@, mv));
                                }
                                out.push(Decl::MessageSet(m));
                            }
                            None => {
                                let mut info = ActorInfo::new(m.name.clone());
                                process_enum(&mut m, &mut info);
                                let ghost epre = ctx.entries@;
                                ctx.entries.push(CtxEntry { name, info });
                                proof {
                                    crate::table::lemma_ctx_view_push(epre, ctx.entries@.last());
                                    lemma_ctx_apply_msgset_absent(cpre, strip_msg(mv.name), mv);
                                    assert(ctx.entries@.last()@ == CtxEntryV {
                                        name: strip_msg(mv.name),
                                        info: ActorInfoV {
                                            actor_name: None,
                                            msg_name: mv.name,
                                            table: tbl_after(Seq::empty(), msgset_entries(mv.variants)),
                                        },
                                    });
                                    assert(ctx@ == ctx_apply_msgset(cpre, name@, mv));
                                }
                                out.push(Decl::MessageSet(m));
                            }
                        }
                        proof {
                            assert(ctx@ == pass1_step(cpre, ds[k]));
                            assert(out@.last()@ == pass1_decl(ds[k]));
                        }
                    }
                    None => {
                        out.push(Decl::MessageSet(m));
                        proof {
                            assert(!ends_with_msg(mv.name));
                            assert(ctx@ == pass1_step(cpre, ds[k]));
                            assert(out@.last()@ == pass1_decl(ds[k]));
                        }
                    }
                }
            }
            other => {
                out.push(other);
                proof {
                    assert(ctx@ == pass1_step(cpre, ds[k]));
                    assert(out@.last()@ == pass1_decl(ds[k]));
                }
            }
        }
        proof {
            crate::decl::lemma_decls_view_push(opre, out@.last());
            assert(decls_view(out@) =~= ds.take(k + 1).map_values(|d2: DeclV| pass1_decl(d2)));
            assert(ctx@ == pass1_ctx(c0, ds.take(k + 1)));
            k = k + 1;
        }
    }
    proof {
        assert(ds.take(k) =~= ds);
        assert(decls_view(out@) =~= pass1_decls(ds));
    }
    out
}

/// Pass two's running state: the declarations walked so far (states rewritten
/// where paired), the context with resolved pairings, and the handle types
/// collected for emission.
pub struct Pass2V {
    pub decls: Seq<DeclV>,
    pub ctx: Seq<CtxEntryV>,
    pub handles: Seq<DeclV>,
}

/// The synthesized handle type's name: a fixed marker prefixed to the state's
/// identifier.
pub open spec fn handle_name_of(state: Seq<char>) -> Seq<char> {
    "Actor"@ + state
}

/// Marks the first context entry under the given name as resolved to the state
/// of that name.
pub open spec fn ctx_set_actor(c: Seq<CtxEntryV>, name: Seq<char>) -> Seq<CtxEntryV>
    decreases c.len(),
{
    if c.len() == 0 {
        c
    } else if c[0].name == name {
        seq![CtxEntryV {
            name: c[0].name,
            info: ActorInfoV {
                actor_name: Some(name),
                msg_name: c[0].info.msg_name,
                table: c[0].info.table,
            },
        }] + c.skip(1)
    } else {
        seq![c[0]] + ctx_set_actor(c.skip(1), name)
    }
}

pub proof fn lemma_ctx_set_actor_found(c: Seq<CtxEntryV>, name: Seq<char>, i: int)
    requires
        0 <= i < c.len(),
        c[i].name == name,
        forall|j: int| 0 <= j < i ==> c[j].name != name,
    ensures
        ctx_set_actor(c, name) == c.update(i, CtxEntryV {
            name: c[i].name,
            info: ActorInfoV {
                actor_name: Some(name),
                msg_name: c[i].info.msg_name,
                table: c[i].info.table,
            },
        }),
    decreases i,
{
    if i == 0 {
        assert(ctx_set_actor(c, name) =~= c.update(0, CtxEntryV {
            name: c[0].name,
            info: ActorInfoV {
                actor_name: Some(name),
                msg_name: c[0].info.msg_name,
                table: c[0].info.table,
            },
        }));
    } else {
        assert(forall|j: int| 0 <= j < i - 1 ==> c.skip(1)[j] == c[j + 1]);
        lemma_ctx_set_actor_found(c.skip(1), name, i - 1);
        assert(ctx_set_actor(c, name) =~= c.update(i, CtxEntryV {
            name: c[i].name,
            info: ActorInfoV {
                actor_name: Some(name),
                msg_name: c[i].info.msg_name,
                table: c[i].info.table,
            },
        }));
    }
}

/// Pass two's effect on one declaration: a state pairs when a context entry of
/// its own name holds a non-empty request table and the state has named
/// fields; it is then augmented with the receiver field, the entry is resolved,
/// and a handle type is collected. Every other declaration passes through.
pub open spec fn pass2_step(st: Pass2V, d: DeclV) -> Pass2V {
    match d {
        DeclV::State(s) => match ctx_find(st.ctx, s.name) {
            Some(info) => if info.table.len() > 0 && s.fields is Named {
                Pass2V {
                    decls: st.decls.push(DeclV::State(spec_augment_state(s, info.msg_name))),
                    ctx: ctx_set_actor(st.ctx, s.name),
                    handles: st.handles.push(DeclV::Handle(HandleDeclV {
                        name: handle_name_of(s.name),
                        msg_name: info.msg_name,
                    })),
                }
            } else {
                Pass2V { decls: st.decls.push(d), ctx: st.ctx, handles: st.handles }
            },
            None => Pass2V { decls: st.decls.push(d), ctx: st.ctx, handles: st.handles },
        },
        _ => Pass2V { decls: st.decls.push(d), ctx: st.ctx, handles: st.handles },
    }
}

pub open spec fn pass2(st0: Pass2V, ds: Seq<DeclV>) -> Pass2V
    decreases ds.len(),
{
    if ds.len() == 0 {
        st0
    } else {
        pass2_step(pass2(st0, ds.drop_last()), ds.last())
    }
}

pub proof fn lemma_pass2_decls_len(st0: Pass2V, ds: Seq<DeclV>)
    ensures
        pass2(st0, ds).decls.len() == st0.decls.len() + ds.len(),
    decreases ds.len(),
{
    if ds.len() > 0 {
        lemma_pass2_decls_len(st0, ds.drop_last());
    }
}

/// Pass two: pairs each state with the context entry of its own name, rewrites
/// it in place, resolves the entry, and returns the handle types collected in
/// walking order.
pub fn pass2_run(decls: &mut Vec<Decl>, ctx: &mut Context) -> (handles: Vec<Decl>)
    ensures
        ({
            let st = pass2(
                Pass2V { decls: Seq::empty(), ctx: old(ctx)@, handles: Seq::empty() },
                decls_view(old(decls)@),
            );
            decls_view(final(decls)@) == st.decls
                && final(ctx)@ == st.ctx
                && decls_view(handles@) == st.handles
        }),
{
    let ghost ds1 = decls_view(old(decls)@);
    let ghost st0 = Pass2V { decls: Seq::empty(), ctx: old(ctx)@, handles: Seq::empty() };
    let mut handles: Vec<Decl> = Vec::new();
    let mut i: usize = 0;
    while i < decls.len()
        invariant
            0 <= i <= ds1.len(),
            decls@.len() == ds1.len(),
            st0 == (Pass2V { decls: Seq::empty(), ctx: old(ctx)@, handles: Seq::empty() }),
            ds1 == decls_view(old(decls)@),
            decls_view(decls@) =~= pass2(st0, ds1.take(i as int)).decls + ds1.skip(i as int),
            ctx@ == pass2(st0, ds1.take(i as int)).ctx,
            decls_view(handles@) =~= pass2(st0, ds1.take(i as int)).handles,
        decreases decls@.len() - i,
    {
        let ghost stpre = pass2(st0, ds1.take(i as int));
        proof {
            lemma_pass2_decls_len(st0, ds1.take(i as int));
            assert(stpre.decls.len() == i);
            assert(ds1.take(i as int + 1).drop_last() =~= ds1.take(i as int));
            assert(ds1.take(i as int + 1).last() == ds1[i as int]);
            assert(pass2(st0, ds1.take(i as int + 1)) == pass2_step(stpre, ds1[i as int]));
        }
        let ghost dpre = decls@;
        let d = decls.remove(i);
        proof {
            crate::decl::lemma_decls_view_index(dpre);
            assert(decls_view(dpre)[i as int] == dpre[i as int]@);
            assert(decls_view(dpre)[i as int] == ds1.skip(i as int)[0]);
            assert(d@ == ds1[i as int]);
            crate::decl::lemma_decls_view_remove(dpre, i as int);
        }
        let ghost dv = d@;
        let ghost cpre = ctx@;
        match d {
            Decl::State(mut s) => {
                let ghost sv = s@;
                let name_opt = get_actor_name(ID::Direct(s.name.clone()));
                let name = match name_opt {
                    Some(n) => n,
                    None => {
                        proof {
                            assert(false);
                        }
                        s.name.clone()
                    }
                };
                proof {
                    assert(name@ == sv.name);
                }
                match ctx.index_of(&name) {
                    Some(i2) => {
                        proof {
                            lemma_ctx_find_at(cpre, sv.name, i2 as int);
                        }
                        let tlen = ctx.entries[i2].info.table.len();
                        let named = matches!(&s.fields, StateFields::Named(_));
                        proof {
                            crate::table::lemma_ctx_view_index(ctx.entries@);
                            assert(crate::table::ctx_view(ctx.entries@)[i2 as int] == ctx.entries@[i2 as int]@);
                            assert(tlen == cpre[i2 as int].info.table.len());
                            assert(named == (sv.fields is Named));
                        }
                        if tlen > 0 && named {
                            let ghost epre = ctx.entries@;
                            let mut entry = ctx.entries.remove(i2);
                            proof {
                                crate::table::lemma_ctx_view_index(epre);
                                assert(crate::table::ctx_view(epre)[i2 as int] == epre[i2 as int]@);
                                assert(entry@ == cpre[i2 as int]);
                            }
                            entry.info.actor_name = Some(s.name.clone());
                            process_struct(&mut s, &entry.info);
                            let hname = String::from_str("Actor").concat(s.name.as_str());
                            let ghost hepre = handles@;
                            handles.push(Decl::Handle(HandleDecl {
                                name: hname,
                                msg_name: entry.info.msg_name.clone(),
                            }));
                            let ghost enew = entry@;
                            ctx.entries.insert(i2, entry);
                            let ghost dmid = decls@;
                            decls.insert(i, Decl::State(s));
                            proof {
                                crate::table::lemma_ctx_view_remove(epre, i2 as int);
                                crate::table::lemma_ctx_view_insert(epre.remove(i2 as int), i2 as int, ctx.entries@[i2 as int]);
                                assert(ctx.entries@[i2 as int]@ == enew);
                                assert(ctx@ == crate::table::ctx_view(epre).remove(i2 as int).insert(i2 as int, enew));
                                assert(ctx@ =~= cpre.update(i2 as int, enew));
                                lemma_ctx_set_actor_found(cpre, sv.name, i2 as int);
                                assert(enew == (CtxEntryV {
                                    name: cpre[i2 as int].name,
                                    info: ActorInfoV {
                                        actor_name: Some(sv.name),
                                        msg_name: cpre[i2 as int].info.msg_name,
                                        table: cpre[i2 as int].info.table,
                                    },
                                }));
                                assert(ctx@ == ctx_set_actor(cpre, sv.name));
                                assert(ctx@ == pass2_step(stpre, ds1[i as int]).ctx);
                                crate::decl::lemma_decls_view_push(hepre, handles@.last());
                                assert(handles@.last()@ == DeclV::Handle(HandleDeclV {
                                    name: handle_name_of(sv.name),
                                    msg_name: cpre[i2 as int].info.msg_name,
                                }));
                                assert(decls_view(handles@) =~= pass2_step(stpre, ds1[i as int]).handles);
                                crate::decl::lemma_decls_view_insert(dmid, i as int, decls@[i as int]);
                                assert(decls@[i as int]@ == DeclV::State(spec_augment_state(sv, cpre[i2 as int].info.msg_name)));
                                assert(decls_view(decls@) =~= pass2_step(stpre, ds1[i as int]).decls + ds1.skip(i as int + 1));
                            }
                        } else {
                            let ghost dmid = decls@;
                            decls.insert(i, Decl::State(s));
                            proof {
                                crate::decl::lemma_decls_view_insert(dmid, i as int, decls@[i as int]);
                                assert(decls@[i as int]@ == dv);
                                assert(ctx@ == pass2_step(stpre, ds1[i as int]).ctx);
                                assert(decls_view(handles@) =~= pass2_step(stpre, ds1[i as int]).handles);
                                assert(decls_view(decls@) =~= pass2_step(stpre, ds1[i as int]).decls + ds1.skip(i as int + 1));
                            }
                        }
                    }
                    None => {
                        let ghost dmid = decls@;
                        decls.insert(i, Decl::State(s));
                        proof {
                            lemma_ctx_find_absent(cpre, sv.name);
                            crate::decl::lemma_decls_view_insert(dmid, i as int, decls@[i as int]);
                            assert(decls@[i as int]@ == dv);
                            assert(ctx@ == pass2_step(stpre, ds1[i as int]).ctx);
                            assert(decls_view(handles@) =~= pass2_step(stpre, ds1[i as int]).handles);
                            assert(decls_view(decls@) =~= pass2_step(stpre, ds1[i as int]).decls + ds1.skip(i as int + 1));
                        }
                    }
                }
            }
            other => {
                let ghost dmid = decls@;
                decls.insert(i, other);
                proof {
                    crate::decl::lemma_decls_view_insert(dmid, i as int, decls@[i as int]);
                    assert(decls@[i as int]@ == dv);
                    assert(ctx@ == pass2_step(stpre, ds1[i as int]).ctx);
                    assert(decls_view(handles@) =~= pass2_step(stpre, ds1[i as int]).handles);
                    assert(decls_view(decls@) =~= pass2_step(stpre, ds1[i as int]).decls + ds1.skip(i as int + 1));
                }
            }
        }
        i += 1;
    }
    proof {
        assert(ds1.take(ds1.len() as int) =~= ds1);
        assert(decls_view(decls@) =~= pass2(st0, ds1).decls);
    }
    handles
}

/// The blocking round-trip accessor for one request kind: named by
/// case-converting the request identifier, returning the recorded reply type.
pub open spec fn rt_method(hname: Seq<char>, msg: Seq<char>, e: ReqEntryV) -> DeclV {
    DeclV::Method(MethodDeclV {
        handle_name: hname,
        msg_name: msg,
        variant: e.variant,
        method_name: snake_of(e.variant),
        resp_ty: e.resp_ty,
        kind: MethodKind::RoundTrip,
    })
}

/// The fire-and-forget accessor for one request kind: named the same way with
/// a fixed suffix appended before case conversion.
pub open spec fn ff_method(hname: Seq<char>, msg: Seq<char>, e: ReqEntryV) -> DeclV {
    DeclV::Method(MethodDeclV {
        handle_name: hname,
        msg_name: msg,
        variant: e.variant,
        method_name: snake_of(e.variant + "_no_wait"@),
        resp_ty: e.resp_ty,
        kind: MethodKind::FireForget,
    })
}

/// The accessor methods a resolved pairing emits: one round-trip and one
/// fire-and-forget method per request-table entry, in table order.
pub open spec fn emit_methods(hname: Seq<char>, msg: Seq<char>, t: Seq<ReqEntryV>) -> Seq<DeclV>
    decreases t.len(),
{
    if t.len() == 0 {
        Seq::empty()
    } else {
        emit_methods(hname, msg, t.drop_last())
            + seq![rt_method(hname, msg, t.last()), ff_method(hname, msg, t.last())]
    }
}

/// What one context entry emits: nothing unless it resolved a state and its
/// request table is non-empty; otherwise the handle constructor, the state's
/// private constructor and dispatch loop, and the accessor methods.
pub open spec fn emit_entry(e: CtxEntryV) -> Seq<DeclV> {
    match e.info.actor_name {
        Some(actor) => if e.info.table.len() > 0 {
            seq![
                DeclV::HandleImpl(HandleImplDeclV {
                    handle_name: handle_name_of(actor),
                    state_name: actor,
                }),
                DeclV::StateImpl(StateImplDeclV { state_name: actor, msg_name: e.info.msg_name }),
            ] + emit_methods(handle_name_of(actor), e.info.msg_name, e.info.table)
        } else {
            Seq::empty()
        },
        None => Seq::empty(),
    }
}

/// Everything the resolved context emits, in first-sighting order.
pub open spec fn emit_all(c: Seq<CtxEntryV>) -> Seq<DeclV>
    decreases c.len(),
{
    if c.len() == 0 {
        Seq::empty()
    } else {
        emit_all(c.drop_last()) + emit_entry(c.last())
    }
}

/// Emits the two accessor methods for every request-table entry, in table
/// order, appending them to the output namespace.
pub fn emit_methods_run(out: &mut Vec<Decl>, hname: &String, msg_name: &String, table: RequestTable)
    ensures
        decls_view(final(out)@) == decls_view(old(out)@) + emit_methods(hname@, msg_name@, table@),
{
    let ghost tv = table@;
    let mut entries = table.entries;
    let ghost mut j: int = 0;
    while entries.len() > 0
        invariant
            0 <= j <= tv.len(),
            entries@.len() == tv.len() - j,
            crate::table::tbl_view(entries@) =~= tv.skip(j),
            decls_view(out@) =~= decls_view(old(out)@) + emit_methods(hname@, msg_name@, tv.take(j)),
        decreases entries@.len(),
    {
        let ghost epre = entries@;
        let e = entries.remove(0);
        proof {
            crate::table::lemma_tbl_view_index(epre);
            crate::table::lemma_tbl_view_remove0(epre);
            assert(crate::table::tbl_view(epre)[0] == epre[0]@);
            assert(e@ == tv.skip(j)[0]);
            assert(e@ == tv[j]);
            assert(crate::table::tbl_view(entries@) == tv.skip(j).skip(1));
            assert(tv.skip(j).skip(1) =~= tv.skip(j + 1));
            assert(tv.take(j + 1).drop_last() =~= tv.take(j));
            assert(tv.take(j + 1).last() == tv[j]);
        }
        let ReqEntry { variant, resp_ty } = e;
        let fname_wait = to_snake(variant.as_str());
        let ghost opre1 = out@;
        out.push(Decl::Method(MethodDecl {
            handle_name: hname.clone(),
            msg_name: msg_name.clone(),
            variant: variant.clone(),
            method_name: fname_wait,
            resp_ty: resp_ty.clone(),
            kind: MethodKind::RoundTrip,
        }));
        proof {
            crate::decl::lemma_decls_view_push(opre1, out@.last());
            assert(out@.last()@ == rt_method(hname@, msg_name@, tv[j]));
        }
        let base = variant.clone().concat("_no_wait");
        let fname_nowait = to_snake(base.as_str());
        let ghost opre2 = out@;
        out.push(Decl::Method(MethodDecl {
            handle_name: hname.clone(),
            msg_name: msg_name.clone(),
            variant,
            method_name: fname_nowait,
            resp_ty,
            kind: MethodKind::FireForget,
        }));
        proof {
            crate::decl::lemma_decls_view_push(opre2, out@.last());
            assert(base@ == tv[j].variant + "_no_wait"@);
            assert(out@.last()@ == ff_method(hname@, msg_name@, tv[j]));
            assert(emit_methods(hname@, msg_name@, tv.take(j + 1))
                =~= emit_methods(hname@, msg_name@, tv.take(j))
                    + seq![rt_method(hname@, msg_name@, tv[j]), ff_method(hname@, msg_name@, tv[j])]);
            assert(decls_view(out@)
                =~= decls_view(old(out)@) + emit_methods(hname@, msg_name@, tv.take(j + 1)));
            j = j + 1;
        }
    }
    proof {
        assert(tv.take(j) =~= tv);
        assert(decls_view(out@) =~= decls_view(old(out)@) + emit_methods(hname@, msg_name@, tv));
    }
}

/// Emission: appends, for every resolved pairing in first-sighting order, the
/// handle constructor, the state's private constructor and dispatch loop, and
/// the accessor methods.
pub fn emit_run(ctx: Context, out: &mut Vec<Decl>)
    ensures
        decls_view(final(out)@) == decls_view(old(out)@) + emit_all(ctx@),
{
    let ghost cv = ctx@;
    let mut entries = ctx.entries;
    let ghost mut j: int = 0;
    while entries.len() > 0
        invariant
            0 <= j <= cv.len(),
            entries@.len() == cv.len() - j,
            crate::table::ctx_view(entries@) =~= cv.skip(j),
            decls_view(out@) =~= decls_view(old(out)@) + emit_all(cv.take(j)),
        decreases entries@.len(),
    {
        let ghost epre = entries@;
        let entry = entries.remove(0);
        proof {
            crate::table::lemma_ctx_view_index(epre);
            crate::table::lemma_ctx_view_remove0(epre);
            assert(crate::table::ctx_view(epre)[0] == epre[0]@);
            assert(entry@ == cv.skip(j)[0]);
            assert(entry@ == cv[j]);
            assert(crate::table::ctx_view(entries@) == cv.skip(j).skip(1));
            assert(cv.skip(j).skip(1) =~= cv.skip(j + 1));
            assert(cv.take(j + 1).drop_last() =~= cv.take(j));
            assert(cv.take(j + 1).last() == cv[j]);
        }
        let CtxEntry { name: _, info } = entry;
        let ActorInfo { actor_name, msg_name, table } = info;
        match actor_name {
            Some(actor) => {
                if table.len() > 0 {
                    let hname = String::from_str("Actor").concat(actor.as_str());
                    let ghost opre1 = out@;
                    out.push(Decl::HandleImpl(HandleImplDecl {
                        handle_name: hname.clone(),
                        state_name: actor.clone(),
                    }));
                    proof {
                        crate::decl::lemma_decls_view_push(opre1, out@.last());
                    }
                    let ghost opre2 = out@;
                    out.push(Decl::StateImpl(StateImplDecl {
                        state_name: actor,
                        msg_name: msg_name.clone(),
                    }));
                    proof {
                        crate::decl::lemma_decls_view_push(opre2, out@.last());
                    }
                    emit_methods_run(out, &hname, &msg_name, table);
                    proof {
                        assert(decls_view(out@) =~= decls_view(old(out)@) + emit_all(cv.take(j + 1)));
                    }
                } else {
                    proof {
                        assert(emit_entry(cv[j]) =~= Seq::<DeclV>::empty());
                        assert(decls_view(out@) =~= decls_view(old(out)@) + emit_all(cv.take(j + 1)));
                    }
                }
            }
            None => {
                proof {
                    assert(emit_entry(cv[j]) =~= Seq::<DeclV>::empty());
                    assert(decls_view(out@) =~= decls_view(old(out)@) + emit_all(cv.take(j + 1)));
                }
            }
        }
        proof {
            j = j + 1;
        }
    }
    proof {
        assert(cv.take(j) =~= cv);
        assert(decls_view(out@) =~= decls_view(old(out)@) + emit_all(cv));
    }
}

/// The whole pipeline's output for a namespace: the originals with suffixed
/// message sets rewritten and paired states augmented, then the collected
/// handle types, then everything the resolved context emits.
pub open spec fn spec_actors(ds: Seq<DeclV>) -> Seq<DeclV> {
    let p2 = pass2(
        Pass2V { decls: Seq::empty(), ctx: pass1_ctx(Seq::empty(), ds), handles: Seq::empty() },
        pass1_decls(ds),
    );
    p2.decls + p2.handles + emit_all(p2.ctx)
}

/// Runs the pipeline once over a namespace: classifies each declaration,
/// rewrites reply fields of suffixed message sets into reply slots, pairs each
/// named-field state with the message set deriving its name, and appends the
/// synthesized actor scaffolding. Declarations that match no convention pass
/// through unmodified, silently.
pub fn actors(ns: Vec<Decl>) -> (out: Vec<Decl>)
    ensures
        decls_view(out@) == spec_actors(decls_view(ns@)),
{
    let ghost ds = decls_view(ns@);
    let mut ctx = Context::new();
    let mut out = pass1(ns, &mut ctx);
    let ghost p2 = pass2(
        Pass2V { decls: Seq::empty(), ctx: pass1_ctx(Seq::empty(), ds), handles: Seq::empty() },
        pass1_decls(ds),
    );
    let mut handles = pass2_run(&mut out, &mut ctx);
    let ghost ov = out@;
    let ghost hv = handles@;
    out.append(&mut handles);
    proof {
        crate::decl::lemma_decls_view_concat(ov, hv);
        assert(decls_view(out@) == p2.decls + p2.handles);
    }
    emit_run(ctx, &mut out);
    proof {
        assert(decls_view(out@) =~= p2.decls + p2.handles + emit_all(p2.ctx));
    }
    out
}

} // verus!
