use agent_codemap::symbol::SymbolKind;

#[test]
fn test_symbol_kind_as_str() {
    assert_eq!(SymbolKind::Class.as_str(), "class");
    assert_eq!(SymbolKind::Function.as_str(), "function");
    assert_eq!(SymbolKind::Method.as_str(), "method");
    assert_eq!(SymbolKind::Variable.as_str(), "variable");
    assert_eq!(SymbolKind::Constant.as_str(), "constant");
    assert_eq!(SymbolKind::Interface.as_str(), "interface");
    assert_eq!(SymbolKind::Enum.as_str(), "enum");
    assert_eq!(SymbolKind::Module.as_str(), "module");
    assert_eq!(SymbolKind::Property.as_str(), "property");
    assert_eq!(SymbolKind::Constructor.as_str(), "constructor");
    assert_eq!(SymbolKind::Field.as_str(), "field");
    assert_eq!(SymbolKind::EnumMember.as_str(), "enum_member");
    assert_eq!(SymbolKind::Type.as_str(), "type");
    assert_eq!(SymbolKind::Namespace.as_str(), "namespace");
}
