use actorgen::decl::Decl;
use actorgen::decl::Field;
use actorgen::decl::FieldTy;
use actorgen::decl::MessageSetDecl;
use actorgen::decl::MethodKind;
use actorgen::decl::StateDecl;
use actorgen::decl::StateFields;
use actorgen::decl::Variant;
use actorgen::decl::VariantFields;
use actorgen::names::get_actor_name;
use actorgen::names::ID;
use actorgen::pipeline::actors;

fn named_field(name: &str, ty: &str) -> Field {
    Field { name: name.to_string(), ty: FieldTy::Plain(ty.to_string()) }
}

fn variant(name: &str, fields: Vec<Field>) -> Variant {
    Variant { name: name.to_string(), fields: VariantFields::Named(fields) }
}

fn msgset(name: &str, variants: Vec<Variant>) -> Decl {
    Decl::MessageSet(MessageSetDecl { name: name.to_string(), variants })
}

fn state(name: &str) -> Decl {
    Decl::State(StateDecl {
        name: name.to_string(),
        fields: StateFields::Named(vec![named_field("data", "Int")]),
    })
}

#[test]
fn actor_name_strips_the_reserved_suffix() {
    assert_eq!(get_actor_name(ID::RemoveMsg("FooMsg".to_string())), Some("Foo".to_string()));
    assert_eq!(get_actor_name(ID::RemoveMsg("Msg".to_string())), Some("".to_string()));
    assert_eq!(get_actor_name(ID::RemoveMsg("Foo".to_string())), None);
    assert_eq!(get_actor_name(ID::RemoveMsg("FooMs".to_string())), None);
    assert_eq!(get_actor_name(ID::Direct("Foo".to_string())), Some("Foo".to_string()));
}

#[test]
fn two_message_sets_of_one_name_merge_their_tables() {
    let ns = vec![
        msgset("FooMsg", vec![variant("Get", vec![named_field("resp", "Int")])]),
        msgset("FooMsg", vec![variant("Put", vec![named_field("resp", "Unit")])]),
        state("Foo"),
    ];
    let out = actors(ns);
    let handles = out.iter().filter(|d| matches!(d, Decl::Handle(_))).count();
    assert_eq!(handles, 1);
    assert!(out.iter().any(|d| matches!(d, Decl::Method(m)
        if m.variant == "Get" && m.kind == MethodKind::RoundTrip && m.resp_ty == "Int")));
    assert!(out.iter().any(|d| matches!(d, Decl::Method(m)
        if m.variant == "Put" && m.kind == MethodKind::RoundTrip && m.resp_ty == "Unit")));
}

#[test]
fn a_repeated_request_kind_keeps_the_last_reply_type() {
    let ns = vec![
        msgset("FooMsg", vec![variant("Get", vec![named_field("resp", "Int")])]),
        msgset("FooMsg", vec![variant("Get", vec![named_field("resp", "Str")])]),
        state("Foo"),
    ];
    let out = actors(ns);
    let round_trips: Vec<_> = out
        .iter()
        .filter_map(|d| match d {
            Decl::Method(m) if m.variant == "Get" && m.kind == MethodKind::RoundTrip => Some(m),
            _ => None,
        })
        .collect();
    assert_eq!(round_trips.len(), 1);
    assert_eq!(round_trips[0].resp_ty, "Str");
}

#[test]
fn actors_emit_in_first_sighting_order() {
    let ns = vec![
        msgset("FooMsg", vec![variant("Get", vec![named_field("resp", "Int")])]),
        msgset("BarMsg", vec![variant("Put", vec![named_field("resp", "Unit")])]),
        state("Foo"),
        state("Bar"),
    ];
    let out = actors(ns);
    let handle_names: Vec<&str> = out
        .iter()
        .filter_map(|d| match d {
            Decl::Handle(h) => Some(h.name.as_str()),
            _ => None,
        })
        .collect();
    assert_eq!(handle_names, vec!["ActorFoo", "ActorBar"]);
    let impl_names: Vec<&str> = out
        .iter()
        .filter_map(|d| match d {
            Decl::HandleImpl(h) => Some(h.handle_name.as_str()),
            _ => None,
        })
        .collect();
    assert_eq!(impl_names, vec!["ActorFoo", "ActorBar"]);
}

#[test]
fn snake_case_handles_multiword_identifiers() {
    let ns = vec![
        msgset("FooMsg", vec![variant("GetItemCount", vec![named_field("resp", "Int")])]),
        state("Foo"),
    ];
    let out = actors(ns);
    assert!(out.iter().any(|d| matches!(d, Decl::Method(m)
        if m.method_name == "get_item_count" && m.kind == MethodKind::RoundTrip)));
    assert!(out.iter().any(|d| matches!(d, Decl::Method(m)
        if m.method_name == "get_item_count_no_wait" && m.kind == MethodKind::FireForget)));
}
