use move_abi::abi_type::{key_less, parse_abi_type, AbiType, SigKind};
use move_abi::assembly::{generate_abi_move_signature, ABIMoveSignature, CompilationContext};
use move_abi::metadata::{abi_move_metadata, find_abi_move_payload, ABI_MOVE_KEY};
use move_abi::signature::{
    from_event_decl, from_function_decl, to_abi_type, EventDecl, FieldDecl, FunctionDecl,
    ParamDecl, ParamPosition, SourceType,
};

fn field(name: &str, ty: SourceType, indexed: bool) -> FieldDecl {
    FieldDecl { name: name.to_string(), ty, indexed }
}

fn param(name: &str, ty: SourceType) -> ParamDecl {
    ParamDecl { name: name.to_string(), ty }
}

fn transfer() -> EventDecl {
    EventDecl {
        name: "Transfer".to_string(),
        fields: vec![
            field("from", SourceType::Address, true),
            field("to", SourceType::Address, true),
            field("amount", SourceType::U256, false),
        ],
    }
}

fn deposit() -> FunctionDecl {
    FunctionDecl {
        name: "deposit".to_string(),
        params: vec![param("amount", SourceType::U256)],
        returns: vec![],
        attribute: Some("payable".to_string()),
    }
}

fn simple_event(name: &str) -> EventDecl {
    EventDecl { name: name.to_string(), fields: vec![field("x", SourceType::U64, false)] }
}

fn simple_function(name: &str) -> FunctionDecl {
    FunctionDecl {
        name: name.to_string(),
        params: vec![],
        returns: vec![param("", SourceType::Bool)],
        attribute: None,
    }
}

fn keys(t: &ABIMoveSignature) -> (Vec<String>, Vec<String>) {
    (
        t.event_map.entries().iter().map(|e| e.key.clone()).collect(),
        t.func_map.entries().iter().map(|e| e.key.clone()).collect(),
    )
}

#[test]
fn transfer_and_deposit_scenario() {
    let ctx = CompilationContext { events: vec![transfer()], functions: vec![deposit()] };
    let table = generate_abi_move_signature(&ctx).unwrap();
    assert_eq!(table.event_map.len(), 1);
    assert_eq!(table.func_map.len(), 1);

    let ev = &table.event_map.entries()[0];
    assert_eq!(ev.key, "Transfer");
    assert_eq!(ev.sig.kind, SigKind::Event);
    let names: Vec<&str> = ev.sig.inputs.iter().map(|p| p.name.as_str()).collect();
    assert_eq!(names, vec!["from", "to", "amount"]);
    let types: Vec<String> = ev.sig.inputs.iter().map(|p| p.ty.name()).collect();
    assert_eq!(types, vec!["address", "address", "uint256"]);
    assert_eq!(ev.sig.inputs[0].indexed, Some(true));
    assert_eq!(ev.sig.inputs[2].indexed, Some(false));
    assert!(ev.sig.outputs.is_empty());
    assert_eq!(ev.sig.state_mutability, None);

    let f = &table.func_map.entries()[0];
    assert_eq!(f.key, "deposit");
    assert_eq!(f.sig.kind, SigKind::Function);
    assert_eq!(f.sig.inputs.len(), 1);
    assert_eq!(f.sig.inputs[0].name, "amount");
    assert_eq!(f.sig.inputs[0].ty.name(), "uint256");
    assert_eq!(f.sig.inputs[0].indexed, None);
    assert_eq!(f.sig.state_mutability, Some("payable".to_string()));

    let m = abi_move_metadata(b"{}".to_vec());
    assert_eq!(m.key, ABI_MOVE_KEY.as_bytes().to_vec());
    assert_eq!(m.key, b"abi_move".to_vec());
    let store = vec![m];
    assert_eq!(find_abi_move_payload(&store), Ok(Some(b"{}".to_vec())));
}

#[test]
fn event_fields_keep_declared_order() {
    let e = EventDecl {
        name: "E".to_string(),
        fields: vec![
            field("f3", SourceType::Bool, false),
            field("f1", SourceType::U8, true),
            field("f2", SourceType::Vector(Box::new(SourceType::U64)), false),
        ],
    };
    let sig = from_event_decl(&e).unwrap();
    let names: Vec<&str> = sig.inputs.iter().map(|p| p.name.as_str()).collect();
    assert_eq!(names, vec!["f3", "f1", "f2"]);
    assert_eq!(sig.inputs[2].ty.name(), "uint64[]");
    assert_eq!(sig.name, "E");
}

#[test]
fn maps_are_sorted_whatever_the_registration_order() {
    let a = CompilationContext {
        events: vec![simple_event("Zeta"), simple_event("Alpha"), simple_event("Mid")],
        functions: vec![simple_function("withdraw"), simple_function("deposit")],
    };
    let b = CompilationContext {
        events: vec![simple_event("Mid"), simple_event("Zeta"), simple_event("Alpha")],
        functions: vec![simple_function("deposit"), simple_function("withdraw")],
    };
    let ta = generate_abi_move_signature(&a).unwrap();
    let tb = generate_abi_move_signature(&b).unwrap();
    let (ea, fa) = keys(&ta);
    assert_eq!(ea, vec!["Alpha", "Mid", "Zeta"]);
    assert_eq!(fa, vec!["deposit", "withdraw"]);
    assert_eq!(keys(&tb), (ea, fa));
}

#[test]
fn assembling_twice_gives_the_same_table() {
    let ctx = CompilationContext {
        events: vec![transfer(), simple_event("Approval")],
        functions: vec![deposit(), simple_function("balance")],
    };
    let t1 = generate_abi_move_signature(&ctx).unwrap();
    let t2 = generate_abi_move_signature(&ctx).unwrap();
    assert_eq!(format!("{:?}", t1), format!("{:?}", t2));
}

#[test]
fn same_name_keeps_the_later_item() {
    let mut later = simple_event("Dup");
    later.fields.push(field("y", SourceType::Bool, true));
    let ctx = CompilationContext { events: vec![simple_event("Dup"), later], functions: vec![] };
    let t = generate_abi_move_signature(&ctx).unwrap();
    assert_eq!(t.event_map.len(), 1);
    assert_eq!(t.event_map.entries()[0].sig.inputs.len(), 2);
}

#[test]
fn unsupported_types_are_reported_per_item() {
    let bad_event = EventDecl {
        name: "Bad".to_string(),
        fields: vec![
            field("ok", SourceType::U8, false),
            field("who", SourceType::Signer, false),
        ],
    };
    let bad_param = FunctionDecl {
        name: "f".to_string(),
        params: vec![param("s", SourceType::Struct("Coin".to_string()))],
        returns: vec![],
        attribute: None,
    };
    let bad_return = FunctionDecl {
        name: "g".to_string(),
        params: vec![param("a", SourceType::Bool)],
        returns: vec![
            param("", SourceType::U8),
            param("", SourceType::Vector(Box::new(SourceType::Signer))),
        ],
        attribute: None,
    };
    let e = from_event_decl(&bad_event).unwrap_err();
    assert_eq!(e.item, "Bad");
    assert_eq!(e.position, ParamPosition::Field(1));
    let e = from_function_decl(&bad_param).unwrap_err();
    assert_eq!(e.item, "f");
    assert_eq!(e.position, ParamPosition::Param(0));
    let e = from_function_decl(&bad_return).unwrap_err();
    assert_eq!(e.item, "g");
    assert_eq!(e.position, ParamPosition::Return(1));

    let ctx = CompilationContext {
        events: vec![transfer(), bad_event],
        functions: vec![bad_param, deposit(), bad_return],
    };
    let errs = generate_abi_move_signature(&ctx).unwrap_err();
    let items: Vec<&str> = errs.iter().map(|e| e.item.as_str()).collect();
    assert_eq!(items, vec!["Bad", "f", "g"]);
}

#[test]
fn empty_context_gives_empty_maps() {
    let ctx = CompilationContext { events: vec![], functions: vec![] };
    let t = generate_abi_move_signature(&ctx).unwrap();
    assert_eq!(t.event_map.len(), 0);
    assert_eq!(t.func_map.len(), 0);
}

#[test]
fn type_mapping_table() {
    let cases = vec![
        (SourceType::Bool, Some("bool")),
        (SourceType::U8, Some("uint8")),
        (SourceType::U16, Some("uint16")),
        (SourceType::U32, Some("uint32")),
        (SourceType::U64, Some("uint64")),
        (SourceType::U128, Some("uint128")),
        (SourceType::U256, Some("uint256")),
        (SourceType::Address, Some("address")),
        (SourceType::Signer, None),
        (SourceType::Struct("S".to_string()), None),
        (SourceType::Vector(Box::new(SourceType::Vector(Box::new(SourceType::Address)))), Some("address[][]")),
        (SourceType::Vector(Box::new(SourceType::Struct("S".to_string()))), None),
    ];
    for (src, want) in cases {
        assert_eq!(to_abi_type(&src).map(|t| t.name()), want.map(|w| w.to_string()));
    }
}

#[test]
fn type_names_parse_back() {
    for name in ["bool", "uint8", "uint16", "uint32", "uint64", "uint128", "uint256", "address", "uint8[]", "address[][]"] {
        assert_eq!(parse_abi_type(name).map(|t| t.name()), Some(name.to_string()));
    }
    assert!(matches!(parse_abi_type("uint256"), Some(AbiType::Uint256)));
    for name in ["", "[]", "uint", "uint7", "bool[", "int256", "address[]x", "Bool"] {
        assert!(parse_abi_type(name).is_none());
    }
}

#[test]
fn key_order_is_code_point_order() {
    let s = |x: &str| x.to_string();
    assert!(key_less(&s("Alpha"), &s("Beta")));
    assert!(!key_less(&s("Beta"), &s("Alpha")));
    assert!(key_less(&s("Zeta"), &s("alpha")));
    assert!(key_less(&s("ab"), &s("abc")));
    assert!(!key_less(&s("abc"), &s("abc")));
    assert!(key_less(&s(""), &s("a")));
}
