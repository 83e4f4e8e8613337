//! The structured declaration namespace the pipeline consumes and produces.
//!
//! The host's parser hands the pipeline a sequence of declarations; the
//! pipeline rewrites some in place and appends the synthesized ones. A
//! declaration here carries exactly what the pipeline reads of it: identifiers
//! and field shapes, with every other surface detail left to the host.

use vstd::prelude::*;

verus! {

/// A field's declared type: an ordinary type (held as its textual name), a
/// single-use reply slot carrying one value of the named type (the rewritten
/// form of a reply field), or the mailbox's receiving endpoint for the named
/// message type (appended to a paired state).
#[derive(Debug, Clone, PartialEq, Eq)]
pub enum FieldTy {
    Plain(String),
    ReplySlot(String),
    Receiver(String),
}

pub enum FieldTyV {
    Plain(Seq<char>),
    ReplySlot(Seq<char>),
    Receiver(Seq<char>),
}

impl View for FieldTy {
    type V = FieldTyV;

    open spec fn view(&self) -> FieldTyV {
        match self {
            FieldTy::Plain(t) => FieldTyV::Plain(t@),
            FieldTy::ReplySlot(t) => FieldTyV::ReplySlot(t@),
            FieldTy::Receiver(t) => FieldTyV::Receiver(t@),
        }
    }
}

/// A named field of a variant or of a state declaration.
#[derive(Debug, Clone, PartialEq, Eq)]
pub struct Field {
    pub name: String,
    pub ty: FieldTy,
}

pub struct FieldV {
    pub name: Seq<char>,
    pub ty: FieldTyV,
}

impl View for Field {
    type V = FieldV;

    open spec fn view(&self) -> FieldV {
        FieldV { name: self.name@, ty: self.ty@ }
    }
}

pub open spec fn fields_view(fs: Seq<Field>) -> Seq<FieldV> {
    fs.map_values(|f: Field| f@)
}

/// The field shape of one variant of a message set: a named-field set, or
/// anything else (tuple-style or unit), which the pipeline passes through
/// untouched.
#[derive(Debug, Clone, PartialEq, Eq)]
pub enum VariantFields {
    Named(Vec<Field>),
    Unnamed,
}

pub enum VariantFieldsV {
    Named(Seq<FieldV>),
    Unnamed,
}

impl View for VariantFields {
    type V = VariantFieldsV;

    open spec fn view(&self) -> VariantFieldsV {
        match self {
            VariantFields::Named(fs) => VariantFieldsV::Named(fields_view(fs@)),
            VariantFields::Unnamed => VariantFieldsV::Unnamed,
        }
    }
}

/// One alternative of a message set: a request kind.
#[derive(Debug, Clone, PartialEq, Eq)]
pub struct Variant {
    pub name: String,
    pub fields: VariantFields,
}

pub struct VariantV {
    pub name: Seq<char>,
    pub fields: VariantFieldsV,
}

impl View for Variant {
    type V = VariantV;

    open spec fn view(&self) -> VariantV {
        VariantV { name: self.name@, fields: self.fields@ }
    }
}

pub open spec fn variants_view(vs: Seq<Variant>) -> Seq<VariantV> {
    vs.map_values(|v: Variant| v@)
}

/// A message-set candidate: a tagged union of request kinds.
#[derive(Debug, Clone, PartialEq, Eq)]
pub struct MessageSetDecl {
    pub name: String,
    pub variants: Vec<Variant>,
}

pub struct MessageSetDeclV {
    pub name: Seq<char>,
    pub variants: Seq<VariantV>,
}

impl View for MessageSetDecl {
    type V = MessageSetDeclV;

    open spec fn view(&self) -> MessageSetDeclV {
        MessageSetDeclV { name: self.name@, variants: variants_view(self.variants@) }
    }
}

/// The field shape of a state candidate: only a named-field set can take the
/// appended mailbox-receiver field; any other shape is left unmodified and is
/// never paired.
#[derive(Debug, Clone, PartialEq, Eq)]
pub enum StateFields {
    Named(Vec<Field>),
    Other,
}

pub enum StateFieldsV {
    Named(Seq<FieldV>),
    Other,
}

impl View for StateFields {
    type V = StateFieldsV;

    open spec fn view(&self) -> StateFieldsV {
        match self {
            StateFields::Named(fs) => StateFieldsV::Named(fields_view(fs@)),
            StateFields::Other => StateFieldsV::Other,
        }
    }
}

/// A state candidate: the private data an actor's worker owns.
#[derive(Debug, Clone, PartialEq, Eq)]
pub struct StateDecl {
    pub name: String,
    pub fields: StateFields,
}

pub struct StateDeclV {
    pub name: Seq<char>,
    pub fields: StateFieldsV,
}

impl View for StateDecl {
    type V = StateDeclV;

    open spec fn view(&self) -> StateDeclV {
        StateDeclV { name: self.name@, fields: self.fields@ }
    }
}

/// A synthesized public handle type holding the mailbox's sending endpoint.
#[derive(Debug, Clone, PartialEq, Eq)]
pub struct HandleDecl {
    pub name: String,
    pub msg_name: String,
}

pub struct HandleDeclV {
    pub name: Seq<char>,
    pub msg_name: Seq<char>,
}

impl View for HandleDecl {
    type V = HandleDeclV;

    open spec fn view(&self) -> HandleDeclV {
        HandleDeclV { name: self.name@, msg_name: self.msg_name@ }
    }
}

/// The synthesized constructor on the handle type: creates a fresh mailbox,
/// wires a state instance to the receiving endpoint, hands it to a spawned
/// worker, and returns the handle holding the sending endpoint.
#[derive(Debug, Clone, PartialEq, Eq)]
pub struct HandleImplDecl {
    pub handle_name: String,
    pub state_name: String,
}

pub struct HandleImplDeclV {
    pub handle_name: Seq<char>,
    pub state_name: Seq<char>,
}

impl View for HandleImplDecl {
    type V = HandleImplDeclV;

    open spec fn view(&self) -> HandleImplDeclV {
        HandleImplDeclV { handle_name: self.handle_name@, state_name: self.state_name@ }
    }
}

/// The synthesized private constructor and dispatch loop on the state type.
#[derive(Debug, Clone, PartialEq, Eq)]
pub struct StateImplDecl {
    pub state_name: String,
    pub msg_name: String,
}

pub struct StateImplDeclV {
    pub state_name: Seq<char>,
    pub msg_name: Seq<char>,
}

impl View for StateImplDecl {
    type V = StateImplDeclV;

    open spec fn view(&self) -> StateImplDeclV {
        StateImplDeclV { state_name: self.state_name@, msg_name: self.msg_name@ }
    }
}

/// Which accessor a synthesized method is: the blocking round-trip variant or
/// the fire-and-forget variant.
#[derive(Debug, Clone, Copy, PartialEq, Eq, Structural)]
pub enum MethodKind {
    RoundTrip,
    FireForget,
}

/// One synthesized accessor method on a handle type, serving one request kind.
#[derive(Debug, Clone, PartialEq, Eq)]
pub struct MethodDecl {
    pub handle_name: String,
    pub msg_name: String,
    pub variant: String,
    pub method_name: String,
    pub resp_ty: String,
    pub kind: MethodKind,
}

pub struct MethodDeclV {
    pub handle_name: Seq<char>,
    pub msg_name: Seq<char>,
    pub variant: Seq<char>,
    pub method_name: Seq<char>,
    pub resp_ty: Seq<char>,
    pub kind: MethodKind,
}

impl View for MethodDecl {
    type V = MethodDeclV;

    open spec fn view(&self) -> MethodDeclV {
        MethodDeclV {
            handle_name: self.handle_name@,
            msg_name: self.msg_name@,
            variant: self.variant@,
            method_name: self.method_name@,
            resp_ty: self.resp_ty@,
            kind: self.kind,
        }
    }
}

/// One top-level declaration of the namespace: the two candidate shapes the
/// scanner classifies, anything else, and the four synthesized shapes the
/// pipeline appends.
#[derive(Debug, Clone, PartialEq, Eq)]
pub enum Decl {
    MessageSet(MessageSetDecl),
    State(StateDecl),
    Other,
    Handle(HandleDecl),
    HandleImpl(HandleImplDecl),
    StateImpl(StateImplDecl),
    Method(MethodDecl),
}

pub enum DeclV {
    MessageSet(MessageSetDeclV),
    State(StateDeclV),
    Other,
    Handle(HandleDeclV),
    HandleImpl(HandleImplDeclV),
    StateImpl(StateImplDeclV),
    Method(MethodDeclV),
}

impl View for Decl {
    type V = DeclV;

    open spec fn view(&self) -> DeclV {
        match self {
            Decl::MessageSet(m) => DeclV::MessageSet(m@),
            Decl::State(s) => DeclV::State(s@),
            Decl::Other => DeclV::Other,
            Decl::Handle(h) => DeclV::Handle(h@),
            Decl::HandleImpl(h) => DeclV::HandleImpl(h@),
            Decl::StateImpl(s) => DeclV::StateImpl(s@),
            Decl::Method(m) => DeclV::Method(m@),
        }
    }
}

pub open spec fn decls_view(ds: Seq<Decl>) -> Seq<DeclV> {
    ds.map_values(|d: Decl| d@)
}

pub proof fn lemma_fields_view_index(s: Seq<Field>)
    ensures
        fields_view(s).len() == s.len(),
        forall|i: int| 0 <= i < s.len() ==> #[trigger] fields_view(s)[i] == s[i]@,
{
}

pub proof fn lemma_variants_view_index(s: Seq<Variant>)
    ensures
        variants_view(s).len() == s.len(),
        forall|i: int| 0 <= i < s.len() ==> #[trigger] variants_view(s)[i] == s[i]@,
{
}

pub proof fn lemma_decls_view_index(s: Seq<Decl>)
    ensures
        decls_view(s).len() == s.len(),
        forall|i: int| 0 <= i < s.len() ==> #[trigger] decls_view(s)[i] == s[i]@,
{
}

pub proof fn lemma_fields_view_remove0(s: Seq<Field>)
    requires
        s.len() > 0,
    ensures
        fields_view(s.remove(0)) == fields_view(s).skip(1),
{
    lemma_fields_view_index(s);
    lemma_fields_view_index(s.remove(0));
    assert forall|i: int| 0 <= i < s.remove(0).len()
        implies fields_view(s.remove(0))[i] == fields_view(s).skip(1)[i] by {
        assert(fields_view(s.remove(0))[i] == s.remove(0)[i]@);
        assert(s.remove(0)[i] == s[i + 1]);
        assert(fields_view(s)[i + 1] == s[i + 1]@);
    }
    assert(fields_view(s.remove(0)) =~= fields_view(s).skip(1));
}

pub proof fn lemma_fields_view_push(s: Seq<Field>, x: Field)
    ensures
        fields_view(s.push(x)) == fields_view(s).push(x@),
{
    lemma_fields_view_index(s);
    lemma_fields_view_index(s.push(x));
    assert forall|i: int| 0 <= i < s.push(x).len()
        implies fields_view(s.push(x))[i] == fields_view(s).push(x@)[i] by {
        assert(fields_view(s.push(x))[i] == s.push(x)[i]@);
        if i < s.len() {
            assert(s.push(x)[i] == s[i]);
            assert(fields_view(s)[i] == s[i]@);
        } else {
            assert(s.push(x)[i] == x);
        }
    }
    assert(fields_view(s.push(x)) =~= fields_view(s).push(x@));
}

pub proof fn lemma_variants_view_remove0(s: Seq<Variant>)
    requires
        s.len() > 0,
    ensures
        variants_view(s.remove(0)) == variants_view(s).skip(1),
{
    lemma_variants_view_index(s);
    lemma_variants_view_index(s.remove(0));
    assert forall|i: int| 0 <= i < s.remove(0).len()
        implies variants_view(s.remove(0))[i] == variants_view(s).skip(1)[i] by {
        assert(variants_view(s.remove(0))[i] == s.remove(0)[i]@);
        assert(s.remove(0)[i] == s[i + 1]);
        assert(variants_view(s)[i + 1] == s[i + 1]@);
    }
    assert(variants_view(s.remove(0)) =~= variants_view(s).skip(1));
}

pub proof fn lemma_variants_view_push(s: Seq<Variant>, x: Variant)
    ensures
        variants_view(s.push(x)) == variants_view(s).push(x@),
{
    lemma_variants_view_index(s);
    lemma_variants_view_index(s.push(x));
    assert forall|i: int| 0 <= i < s.push(x).len()
        implies variants_view(s.push(x))[i] == variants_view(s).push(x@)[i] by {
        assert(variants_view(s.push(x))[i] == s.push(x)[i]@);
        if i < s.len() {
            assert(s.push(x)[i] == s[i]);
            assert(variants_view(s)[i] == s[i]@);
        } else {
            assert(s.push(x)[i] == x);
        }
    }
    assert(variants_view(s.push(x)) =~= variants_view(s).push(x@));
}

pub proof fn lemma_decls_view_remove0(s: Seq<Decl>)
    requires
        s.len() > 0,
    ensures
        decls_view(s.remove(0)) == decls_view(s).skip(1),
{
    lemma_decls_view_index(s);
    lemma_decls_view_index(s.remove(0));
    assert forall|i: int| 0 <= i < s.remove(0).len()
        implies decls_view(s.remove(0))[i] == decls_view(s).skip(1)[i] by {
        assert(decls_view(s.remove(0))[i] == s.remove(0)[i]@);
        assert(s.remove(0)[i] == s[i + 1]);
        assert(decls_view(s)[i + 1] == s[i + 1]@);
    }
    assert(decls_view(s.remove(0)) =~= decls_view(s).skip(1));
}

pub proof fn lemma_decls_view_push(s: Seq<Decl>, x: Decl)
    ensures
        decls_view(s.push(x)) == decls_view(s).push(x@),
{
    lemma_decls_view_index(s);
    lemma_decls_view_index(s.push(x));
    assert forall|i: int| 0 <= i < s.push(x).len()
        implies decls_view(s.push(x))[i] == decls_view(s).push(x@)[i] by {
        assert(decls_view(s.push(x))[i] == s.push(x)[i]@);
        if i < s.len() {
            assert(s.push(x)[i] == s[i]);
            assert(decls_view(s)[i] == s[i]@);
        } else {
            assert(s.push(x)[i] == x);
        }
    }
    assert(decls_view(s.push(x)) =~= decls_view(s).push(x@));
}

pub proof fn lemma_decls_view_concat(a: Seq<Decl>, b: Seq<Decl>)
    ensures
        decls_view(a + b) == decls_view(a) + decls_view(b),
{
    lemma_decls_view_index(a);
    lemma_decls_view_index(b);
    lemma_decls_view_index(a + b);
    assert forall|i: int| 0 <= i < (a + b).len()
        implies decls_view(a + b)[i] == (decls_view(a) + decls_view(b))[i] by {
        assert(decls_view(a + b)[i] == (a + b)[i]@);
        if i < a.len() {
            assert((a + b)[i] == a[i]);
            assert(decls_view(a)[i] == a[i]@);
        } else {
            assert((a + b)[i] == b[i - a.len()]);
            assert(decls_view(b)[i - a.len()] == b[i - a.len()]@);
        }
    }
    assert(decls_view(a + b) =~= decls_view(a) + decls_view(b));
}

pub proof fn lemma_decls_view_remove(s: Seq<Decl>, i: int)
    requires
        0 <= i < s.len(),
    ensures
        decls_view(s.remove(i)) == decls_view(s).remove(i),
{
    lemma_decls_view_index(s);
    lemma_decls_view_index(s.remove(i));
    assert forall|x: int| 0 <= x < s.remove(i).len()
        implies decls_view(s.remove(i))[x] == decls_view(s).remove(i)[x] by {
        assert(decls_view(s.remove(i))[x] == s.remove(i)[x]@);
        if x < i {
            assert(s.remove(i)[x] == s[x]);
            assert(decls_view(s)[x] == s[x]@);
        } else {
            assert(s.remove(i)[x] == s[x + 1]);
            assert(decls_view(s)[x + 1] == s[x + 1]@);
        }
    }
    assert(decls_view(s.remove(i)) =~= decls_view(s).remove(i));
}

pub proof fn lemma_decls_view_insert(s: Seq<Decl>, i: int, x: Decl)
    requires
        0 <= i <= s.len(),
    ensures
        decls_view(s.insert(i, x)) == decls_view(s).insert(i, x@),
{
    lemma_decls_view_index(s);
    lemma_decls_view_index(s.insert(i, x));
    assert forall|y: int| 0 <= y < s.insert(i, x).len()
        implies decls_view(s.insert(i, x))[y] == decls_view(s).insert(i, x@)[y] by {
        assert(decls_view(s.insert(i, x))[y] == s.insert(i, x)[y]@);
        if y < i {
            assert(s.insert(i, x)[y] == s[y]);
            assert(decls_view(s)[y] == s[y]@);
        } else if y == i {
            assert(s.insert(i, x)[y] == x);
        } else {
            assert(s.insert(i, x)[y] == s[y - 1]);
            assert(decls_view(s)[y - 1] == s[y - 1]@);
        }
    }
    assert(decls_view(s.insert(i, x)) =~= decls_view(s).insert(i, x@));
}

} // verus!
