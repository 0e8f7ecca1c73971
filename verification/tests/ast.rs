use p4rs::ast::{
    Action, ActionRef, BinOp, Control, Expression, Header, HeaderMember, Lvalue, MatchKind, Package,
    PackageInstance, PackageParameter, Parser, Select, State, StatementBlock, Struct,
    StructMember, Table, Type, AST,
};
use p4rs::codegen::{member_kind, serializes, MemberKind};
use p4rs::lexer::Token;

#[test]
fn constructors_start_empty() {
    let p = PackageInstance::new("V1Switch".to_string());
    assert_eq!(p.instance_type, "V1Switch");
    assert_eq!(p.name, "");
    assert!(p.parameters.is_empty());

    let p = Package::new("pkg".to_string());
    assert_eq!(p.name, "pkg");
    assert!(p.type_parameters.is_empty() && p.parameters.is_empty());

    let p = PackageParameter::new("parser_t".to_string());
    assert_eq!(p.ty_name, "parser_t");
    assert_eq!(p.name, "");
    assert!(p.type_parameters.is_empty());

    let h = Header::new("ethernet_t".to_string());
    assert_eq!(h.name, "ethernet_t");
    assert!(h.members.is_empty());

    let s = Struct::new("headers_t".to_string());
    assert_eq!(s.name, "headers_t");
    assert!(s.members.is_empty());

    let c = Control::new("ingress".to_string());
    assert_eq!(c.name, "ingress");
    assert!(c.actions.is_empty() && c.tables.is_empty() && c.parameters.is_empty());
    assert!(c.apply.statements.is_empty());

    let p = Parser::new("parse".to_string(), Token { line: 3, col: 7 });
    assert_eq!(p.name, "parse");
    assert_eq!(p.token, Token { line: 3, col: 7 });
    assert!(p.states.is_empty());

    let a = Action::new("forward".to_string());
    assert_eq!(a.name, "forward");
    assert!(a.parameters.is_empty() && a.statement_block.variables.is_empty());

    let t = Table::new("router".to_string());
    assert_eq!(t.name, "router");
    assert_eq!(t.size, 0);
    assert_eq!(t.default_action, "");
    assert!(t.key.is_empty() && t.const_entries.is_empty() && t.actions.is_empty());

    let r = ActionRef::new("drop".to_string());
    assert_eq!(r.name, "drop");
    assert!(r.parameters.is_empty());

    let s = State::new("start".to_string());
    assert_eq!(s.name, "start");
    assert!(s.transition.is_none());
    assert!(s.variables.is_empty() && s.constants.is_empty() && s.statements.is_empty());

    let b = StatementBlock::default();
    assert!(b.variables.is_empty() && b.constants.is_empty() && b.statements.is_empty());
    let s = Select::default();
    assert!(s.parameters.is_empty() && s.elements.is_empty());
}

#[test]
fn lookup_by_name_finds_the_first() {
    let mut ast = AST::default();
    assert!(ast.get_header("ethernet_t").is_none());
    assert!(ast.get_struct("headers_t").is_none());

    let mut first = Header::new("ethernet_t".to_string());
    first.members.push(HeaderMember { ty: Type::Bit(48), name: "dst".to_string() });
    ast.headers.push(Header::new("ipv6_t".to_string()));
    ast.headers.push(first);
    ast.headers.push(Header::new("ethernet_t".to_string()));
    ast.structs.push(Struct::new("headers_t".to_string()));

    let found = ast.get_header("ethernet_t").unwrap();
    assert_eq!(found.members.len(), 1);
    assert_eq!(ast.get_header("ipv6_t").unwrap().name, "ipv6_t");
    assert!(ast.get_header("headers_t").is_none());
    assert_eq!(ast.get_struct("headers_t").unwrap().name, "headers_t");
    assert!(ast.get_struct("ethernet_t").is_none());
}

#[test]
fn expressions_clone_deeply() {
    let e = Expression::Binary(
        Box::new(Expression::Lvalue(Lvalue { name: "x".to_string() })),
        BinOp::Add,
        Box::new(Expression::BitLit(8, 3)),
    );
    match e.clone() {
        Expression::Binary(a, op, b) => {
            assert_eq!(op, BinOp::Add);
            assert!(matches!(*a, Expression::Lvalue(ref l) if l.name == "x"));
            assert!(matches!(*b, Expression::BitLit(8, 3)));
        }
        _ => panic!("a clone keeps the variant"),
    }
}

#[test]
fn types_are_written_as_in_the_source() {
    assert_eq!(Type::Bool.to_text(), "bool");
    assert_eq!(Type::Error.to_text(), "error");
    assert_eq!(Type::Bit(8).to_text(), "bit<8>");
    assert_eq!(Type::Bit(0).to_text(), "bit<0>");
    assert_eq!(Type::Bit(128).to_text(), "bit<128>");
    assert_eq!(Type::Varbit(1024).to_text(), "varbit<1024>");
    assert_eq!(Type::Int(32).to_text(), "int<32>");
    assert_eq!(Type::String.to_text(), "string");
    assert_eq!(Type::UserDefined("ipv6_t".to_string()).to_text(), "ipv6_t");
    assert_eq!(Type::Bit(usize::MAX).to_text(), format!("bit<{}>", usize::MAX));
}

#[test]
fn struct_members_are_told_apart() {
    let mut ast = AST::default();
    ast.headers.push(Header::new("ethernet_t".to_string()));
    let member = |ty: Type| StructMember {
        ty,
        name: "m".to_string(),
        token: Token { line: 0, col: 0 },
    };
    let header = member(Type::UserDefined("ethernet_t".to_string()));
    assert_eq!(member_kind(&ast, &header), MemberKind::Header);
    let unknown = member(Type::UserDefined("ipv6_t".to_string()));
    assert_eq!(member_kind(&ast, &unknown), MemberKind::Undefined);
    assert_eq!(member_kind(&ast, &member(Type::Bit(9))), MemberKind::Bits(9));
    assert_eq!(member_kind(&ast, &member(Type::Bool)), MemberKind::Bool);
    assert_eq!(member_kind(&ast, &member(Type::Int(8))), MemberKind::Unsupported);
    assert_eq!(member_kind(&ast, &member(Type::Varbit(8))), MemberKind::Unsupported);
    assert_eq!(member_kind(&ast, &member(Type::String)), MemberKind::Unsupported);
    assert_eq!(member_kind(&ast, &member(Type::Error)), MemberKind::Unsupported);

    let mut plain = Struct::new("meta_t".to_string());
    plain.members.push(member(Type::Bit(8)));
    plain.members.push(member(Type::Bool));
    assert!(!serializes(&ast, &plain));
    plain.members.push(header);
    assert!(serializes(&ast, &plain));
    assert!(!serializes(&ast, &Struct::new("none".to_string())));
}

#[test]
fn a_table_key_matches_each_value_once() {
    let mut t = Table::new("router".to_string());
    let lv = |name: &str| Lvalue { name: name.to_string() };
    assert_eq!(t.key_kind("hdr.ipv6.dst"), None);
    assert_eq!(t.set_key(lv("hdr.ipv6.dst"), MatchKind::Exact), None);
    assert_eq!(t.set_key(lv("ingress.port"), MatchKind::Ternary), None);
    assert_eq!(
        t.set_key(lv("hdr.ipv6.dst"), MatchKind::LongestPrefixMatch),
        Some(MatchKind::Exact)
    );
    assert_eq!(t.key.len(), 2);
    assert_eq!(t.key_kind("hdr.ipv6.dst"), Some(MatchKind::LongestPrefixMatch));
    assert_eq!(t.key_kind("ingress.port"), Some(MatchKind::Ternary));
    assert_eq!(t.key_kind("egress.port"), None);
    assert_eq!(t.key[0].0.name, "hdr.ipv6.dst");
}
