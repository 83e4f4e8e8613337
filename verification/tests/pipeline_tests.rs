use actorgen::decl::Decl;
use actorgen::decl::Field;
use actorgen::decl::FieldTy;
use actorgen::decl::MessageSetDecl;
use actorgen::decl::MethodKind;
use actorgen::decl::StateDecl;
use actorgen::decl::StateFields;
use actorgen::decl::Variant;
use actorgen::decl::VariantFields;
use actorgen::pipeline::actors;

fn named_field(name: &str, ty: &str) -> Field {
    Field { name: name.to_string(), ty: FieldTy::Plain(ty.to_string()) }
}

fn variant(name: &str, fields: Vec<Field>) -> Variant {
    Variant { name: name.to_string(), fields: VariantFields::Named(fields) }
}

fn foo_namespace() -> Vec<Decl> {
    vec![
        Decl::MessageSet(MessageSetDecl {
            name: "FooMsg".to_string(),
            variants: vec![
                variant("Get", vec![named_field("key", "Str"), named_field("resp", "Int")]),
                variant(
                    "Set",
                    vec![
                        named_field("key", "Str"),
                        named_field("val", "Int"),
                        named_field("resp", "Unit"),
                    ],
                ),
            ],
        }),
        Decl::State(StateDecl {
            name: "Foo".to_string(),
            fields: StateFields::Named(vec![named_field("data", "Map<Str,Int>")]),
        }),
    ]
}

#[test]
fn end_to_end_scenario() {
    let out = actors(foo_namespace());
    // Original two declarations, one handle type, one handle constructor, one
    // state impl, and two methods per request kind.
    assert_eq!(out.len(), 2 + 1 + 1 + 1 + 4);

    // The message set's reply fields are rewritten into reply slots.
    match &out[0] {
        Decl::MessageSet(m) => {
            assert_eq!(m.name, "FooMsg");
            match &m.variants[0].fields {
                VariantFields::Named(fs) => {
                    assert_eq!(fs[0], named_field("key", "Str"));
                    assert_eq!(fs[1].name, "resp");
                    assert_eq!(fs[1].ty, FieldTy::ReplySlot("Int".to_string()));
                }
                _ => panic!("expected named fields"),
            }
            match &m.variants[1].fields {
                VariantFields::Named(fs) => {
                    assert_eq!(fs[2].ty, FieldTy::ReplySlot("Unit".to_string()));
                }
                _ => panic!("expected named fields"),
            }
        }
        other => panic!("expected the rewritten message set, got {:?}", other),
    }

    // The state gains the mailbox-receiver field.
    match &out[1] {
        Decl::State(s) => {
            assert_eq!(s.name, "Foo");
            match &s.fields {
                StateFields::Named(fs) => {
                    assert_eq!(fs.len(), 2);
                    assert_eq!(fs[1].name, "receiver");
                    assert_eq!(fs[1].ty, FieldTy::Receiver("FooMsg".to_string()));
                }
                _ => panic!("expected named fields"),
            }
        }
        other => panic!("expected the augmented state, got {:?}", other),
    }

    // The handle type, its constructor and the state scaffolding.
    match &out[2] {
        Decl::Handle(h) => {
            assert_eq!(h.name, "ActorFoo");
            assert_eq!(h.msg_name, "FooMsg");
        }
        other => panic!("expected the handle type, got {:?}", other),
    }
    match &out[3] {
        Decl::HandleImpl(h) => {
            assert_eq!(h.handle_name, "ActorFoo");
            assert_eq!(h.state_name, "Foo");
        }
        other => panic!("expected the handle constructor, got {:?}", other),
    }
    match &out[4] {
        Decl::StateImpl(s) => {
            assert_eq!(s.state_name, "Foo");
            assert_eq!(s.msg_name, "FooMsg");
        }
        other => panic!("expected the state scaffolding, got {:?}", other),
    }

    // Method names come from real case conversion: "Get" becomes "get", not
    // "Get" handed back unchanged.
    match &out[5] {
        Decl::Method(m) => {
            assert_eq!(m.handle_name, "ActorFoo");
            assert_eq!(m.variant, "Get");
            assert_eq!(m.method_name, "get");
            assert_eq!(m.resp_ty, "Int");
            assert_eq!(m.kind, MethodKind::RoundTrip);
        }
        other => panic!("expected the round-trip method, got {:?}", other),
    }
    match &out[6] {
        Decl::Method(m) => {
            assert_eq!(m.method_name, "get_no_wait");
            assert_eq!(m.kind, MethodKind::FireForget);
        }
        other => panic!("expected the fire-and-forget method, got {:?}", other),
    }
    match &out[7] {
        Decl::Method(m) => {
            assert_eq!(m.method_name, "set");
            assert_eq!(m.resp_ty, "Unit");
            assert_eq!(m.kind, MethodKind::RoundTrip);
        }
        other => panic!("expected the round-trip method, got {:?}", other),
    }
    match &out[8] {
        Decl::Method(m) => {
            assert_eq!(m.method_name, "set_no_wait");
            assert_eq!(m.kind, MethodKind::FireForget);
        }
        other => panic!("expected the fire-and-forget method, got {:?}", other),
    }
}

#[test]
fn pairing_emits_one_method_pair_per_reply_variant() {
    let out = actors(foo_namespace());
    let count = |variant: &str, kind: MethodKind| {
        out.iter()
            .filter(|d| match d {
                Decl::Method(m) => {
                    m.handle_name == "ActorFoo" && m.variant == variant && m.kind == kind
                }
                _ => false,
            })
            .count()
    };
    assert_eq!(count("Get", MethodKind::RoundTrip), 1);
    assert_eq!(count("Get", MethodKind::FireForget), 1);
    assert_eq!(count("Set", MethodKind::RoundTrip), 1);
    assert_eq!(count("Set", MethodKind::FireForget), 1);
}

#[test]
fn no_pairing_without_match() {
    let ns = vec![
        Decl::MessageSet(MessageSetDecl {
            name: "BarMsg".to_string(),
            variants: vec![variant("Ping", vec![named_field("resp", "Unit")])],
        }),
        Decl::State(StateDecl {
            name: "Foo".to_string(),
            fields: StateFields::Named(vec![named_field("data", "Int")]),
        }),
    ];
    let out = actors(ns);
    // The state passes through unmodified and gains no handle.
    assert_eq!(
        out[1],
        Decl::State(StateDecl {
            name: "Foo".to_string(),
            fields: StateFields::Named(vec![named_field("data", "Int")]),
        })
    );
    assert!(!out.iter().any(|d| matches!(d, Decl::Handle(h) if h.name == "ActorFoo")));
    assert!(!out.iter().any(|d| matches!(d, Decl::Method(m) if m.handle_name == "ActorFoo")));
}

#[test]
fn unsuffixed_message_set_is_skipped() {
    let ns = vec![
        Decl::MessageSet(MessageSetDecl {
            name: "FooRequests".to_string(),
            variants: vec![variant("Get", vec![named_field("resp", "Int")])],
        }),
        Decl::State(StateDecl {
            name: "Foo".to_string(),
            fields: StateFields::Named(vec![named_field("data", "Int")]),
        }),
    ];
    let out = actors(ns);
    assert_eq!(out.len(), 2);
    // Unchanged: no rewrite, no pairing, no emission.
    match &out[0] {
        Decl::MessageSet(m) => {
            assert_eq!(m.name, "FooRequests");
            match &m.variants[0].fields {
                VariantFields::Named(fs) => {
                    assert_eq!(fs[0].ty, FieldTy::Plain("Int".to_string()));
                }
                _ => panic!("expected named fields"),
            }
        }
        other => panic!("expected the untouched message set, got {:?}", other),
    }
}

#[test]
fn variant_without_named_fields_is_skipped() {
    let ns = vec![
        Decl::MessageSet(MessageSetDecl {
            name: "FooMsg".to_string(),
            variants: vec![
                Variant { name: "Stop".to_string(), fields: VariantFields::Unnamed },
                variant("Get", vec![named_field("resp", "Int")]),
            ],
        }),
        Decl::State(StateDecl {
            name: "Foo".to_string(),
            fields: StateFields::Named(vec![named_field("data", "Int")]),
        }),
    ];
    let out = actors(ns);
    // The tuple-style variant passes through untouched and yields no methods.
    match &out[0] {
        Decl::MessageSet(m) => {
            assert_eq!(m.variants[0], Variant {
                name: "Stop".to_string(),
                fields: VariantFields::Unnamed,
            });
        }
        other => panic!("expected the message set, got {:?}", other),
    }
    assert!(!out.iter().any(|d| matches!(d, Decl::Method(m) if m.variant == "Stop")));
    assert!(out.iter().any(|d| matches!(d, Decl::Method(m) if m.variant == "Get")));
}

#[test]
fn variant_without_reply_field_yields_no_methods() {
    let ns = vec![
        Decl::MessageSet(MessageSetDecl {
            name: "FooMsg".to_string(),
            variants: vec![
                variant("Note", vec![named_field("text", "Str")]),
                variant("Get", vec![named_field("resp", "Int")]),
            ],
        }),
        Decl::State(StateDecl {
            name: "Foo".to_string(),
            fields: StateFields::Named(vec![]),
        }),
    ];
    let out = actors(ns);
    assert!(!out.iter().any(|d| matches!(d, Decl::Method(m) if m.variant == "Note")));
    assert!(out.iter().any(|d| matches!(d, Decl::Method(m) if m.variant == "Get")));
}

#[test]
fn runs_are_deterministic() {
    let a = actors(foo_namespace());
    let b = actors(foo_namespace());
    assert_eq!(a, b);
}

#[test]
fn state_without_named_fields_is_not_paired() {
    let ns = vec![
        Decl::MessageSet(MessageSetDecl {
            name: "FooMsg".to_string(),
            variants: vec![variant("Get", vec![named_field("resp", "Int")])],
        }),
        Decl::State(StateDecl { name: "Foo".to_string(), fields: StateFields::Other }),
    ];
    let out = actors(ns);
    assert_eq!(out.len(), 2);
    assert_eq!(out[1], Decl::State(StateDecl {
        name: "Foo".to_string(),
        fields: StateFields::Other,
    }));
}

#[test]
fn empty_namespace_yields_nothing() {
    let out = actors(vec![]);
    assert!(out.is_empty());
}
