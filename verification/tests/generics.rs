use legend_pure::expr::Parameter;
use legend_pure::generics::{
    bind_mult_with_mode, bind_type, build_callee_rename, collect_generic_names_in_typeexpr,
    rename_callee_multiplicity, rename_callee_typeexpr, substitute_class_generics, substitute_mult,
    substitute_type, RegisterMode,
};
use legend_pure::ids::{any_id, ElementId};
use legend_pure::model::{Element, ElementNode, ModelChunk, PureModel};
use legend_pure::nodes::{Class, PrimitiveType};
use legend_pure::types::{Multiplicity, SourceInfo, TypeExpr};

fn named(element: ElementId) -> TypeExpr {
    TypeExpr::Named {
        element,
        type_arguments: vec![],
        multiplicity_arguments: vec![],
        value_arguments: vec![],
        source_info: None,
    }
}

fn named_with(element: ElementId, args: Vec<TypeExpr>) -> TypeExpr {
    TypeExpr::Named {
        element,
        type_arguments: args,
        multiplicity_arguments: vec![],
        value_arguments: vec![],
        source_info: None,
    }
}

fn generic(n: &str) -> TypeExpr {
    TypeExpr::Generic(n.to_string())
}

fn var(n: &str) -> Multiplicity {
    Multiplicity::Variable(n.to_string())
}

const STRING: ElementId = ElementId { chunk_id: 0, local_idx: 3 };
const INTEGER: ElementId = ElementId { chunk_id: 0, local_idx: 5 };
const LIST: ElementId = ElementId { chunk_id: 0, local_idx: 6 };

fn si() -> SourceInfo {
    SourceInfo { source: "g.pure".to_string(), start_line: 1, start_column: 1, end_line: 1, end_column: 1 }
}

fn empty_class(type_parameters: &[&str]) -> Class {
    Class {
        type_parameters: type_parameters.iter().map(|s| s.to_string()).collect(),
        type_parameter_variances: vec![],
        multiplicity_parameters: vec![],
        type_variable_parameters: vec![],
        super_types: vec![],
        properties: vec![],
        qualified_properties: vec![],
        constraints: vec![],
        stereotypes: vec![],
        tagged_values: vec![],
        original_milestoned_properties: vec![],
    }
}

fn prim() -> PrimitiveType {
    PrimitiveType { super_type: None, super_type_value_arguments: vec![], type_variable_parameters: vec![], constraints: vec![] }
}

fn bootstrap() -> PureModel {
    let mut model = PureModel::new();
    let root = model.root_package;
    let node = |name: &str| ElementNode { name: name.to_string(), source_info: si(), parent_package: root };
    let mut c0 = ModelChunk::new(0);
    c0.alloc_element(node("Any"), Element::Class(empty_class(&[])));
    c0.alloc_element(node("Nil"), Element::Class(empty_class(&[])));
    c0.alloc_element(node("Boolean"), Element::PrimitiveType(prim()));
    c0.alloc_element(node("String"), Element::PrimitiveType(prim()));
    c0.alloc_element(node("Date"), Element::PrimitiveType(prim()));
    c0.alloc_element(node("Integer"), Element::PrimitiveType(prim()));
    c0.alloc_element(node("List"), Element::Class(empty_class(&["T"])));
    model.chunks.push(c0);
    model
}

#[test]
fn multiplicity_substitution_follows_aliases() {
    let bindings = vec![("m".to_string(), var("n")), ("n".to_string(), Multiplicity::ZeroOrMany)];
    assert_eq!(substitute_mult(&var("m"), &bindings), Multiplicity::ZeroOrMany);
    assert_eq!(substitute_mult(&var("k"), &bindings), var("k"));
    assert_eq!(substitute_mult(&Multiplicity::PureOne, &bindings), Multiplicity::PureOne);
    let cycle = vec![("a".to_string(), var("b")), ("b".to_string(), var("a"))];
    assert_eq!(substitute_mult(&var("a"), &cycle), var("a"));
    let itself = vec![("x".to_string(), var("x"))];
    assert_eq!(substitute_mult(&var("x"), &itself), var("x"));
}

#[test]
fn type_substitution_reaches_type_arguments() {
    let bindings = vec![("T".to_string(), named(STRING)), ("U".to_string(), generic("T"))];
    assert_eq!(substitute_type(&generic("T"), &bindings), named(STRING));
    assert_eq!(substitute_type(&generic("U"), &bindings), named(STRING));
    assert_eq!(substitute_type(&generic("V"), &bindings), generic("V"));
    assert_eq!(
        substitute_type(&named_with(LIST, vec![generic("U")]), &bindings),
        named_with(LIST, vec![named(STRING)])
    );
}

#[test]
fn class_generics_bind_position_by_position() {
    let params = vec!["T".to_string(), "U".to_string()];
    let args = vec![named(INTEGER)];
    assert_eq!(substitute_class_generics(&generic("T"), &params, &args), named(INTEGER));
    assert_eq!(substitute_class_generics(&generic("U"), &params, &args), generic("U"));
}

#[test]
fn callee_names_are_renamed() {
    let types = vec![("T".to_string(), "__cs1_T".to_string())];
    let mults = vec![("m".to_string(), "__cs1_m".to_string())];
    assert_eq!(rename_callee_multiplicity(&var("m"), &mults), var("__cs1_m"));
    assert_eq!(rename_callee_multiplicity(&var("k"), &mults), var("k"));
    let ft = TypeExpr::FunctionType {
        parameters: vec![(generic("T"), var("m"))],
        return_type: Box::new(named_with(LIST, vec![generic("T")])),
        return_multiplicity: Multiplicity::PureOne,
    };
    let renamed = TypeExpr::FunctionType {
        parameters: vec![(generic("__cs1_T"), var("__cs1_m"))],
        return_type: Box::new(named_with(LIST, vec![generic("__cs1_T")])),
        return_multiplicity: Multiplicity::PureOne,
    };
    assert_eq!(rename_callee_typeexpr(&ft, &types, &mults), renamed);
}

#[test]
fn generic_names_are_collected_once() {
    let ft = TypeExpr::FunctionType {
        parameters: vec![(generic("T"), var("m")), (generic("T"), var("n"))],
        return_type: Box::new(generic("V")),
        return_multiplicity: var("m"),
    };
    let mut types = Vec::new();
    let mut mults = Vec::new();
    collect_generic_names_in_typeexpr(&ft, &mut types, &mut mults);
    types.sort();
    mults.sort();
    assert_eq!(types, vec!["T".to_string(), "V".to_string()]);
    assert_eq!(mults, vec!["m".to_string(), "n".to_string()]);
}

#[test]
fn callee_rename_uses_the_call_site() {
    let params = vec![Parameter { name: "x".to_string(), type_expr: generic("T"), multiplicity: var("m"), source_info: None }];
    let (types, mults) = build_callee_rename(&params, 7);
    assert_eq!(types, vec![("T".to_string(), "__cs7_T".to_string())]);
    assert_eq!(mults, vec![("m".to_string(), "__cs7_m".to_string())]);
    let plain = vec![Parameter { name: "y".to_string(), type_expr: named(STRING), multiplicity: Multiplicity::PureOne, source_info: None }];
    let (types, mults) = build_callee_rename(&plain, 8);
    assert!(types.is_empty() && mults.is_empty());
}

#[test]
fn multiplicity_binding_modes() {
    let mut out = Vec::new();
    bind_mult_with_mode(&var("m"), &Multiplicity::PureOne, &mut out, RegisterMode::Constraint);
    assert_eq!(out, vec![("m".to_string(), Multiplicity::PureOne)]);
    bind_mult_with_mode(&var("m"), &Multiplicity::ZeroOrOne, &mut out, RegisterMode::Authoritative);
    assert_eq!(out, vec![("m".to_string(), Multiplicity::PureOne)]);
    bind_mult_with_mode(&var("m"), &Multiplicity::ZeroOrOne, &mut out, RegisterMode::Constraint);
    assert_eq!(out, vec![("m".to_string(), Multiplicity::ZeroOrOne)]);
    // a concrete parameter binds nothing
    bind_mult_with_mode(&Multiplicity::PureOne, &Multiplicity::ZeroOrMany, &mut out, RegisterMode::Constraint);
    assert_eq!(out.len(), 1);
    // an alias made concrete is propagated to every key aliased to it
    let mut aliased = vec![("m".to_string(), var("k")), ("n".to_string(), var("k"))];
    bind_mult_with_mode(&var("m"), &Multiplicity::PureOne, &mut aliased, RegisterMode::Constraint);
    let wide = Multiplicity::Range { lower: 0, upper: None };
    assert_eq!(aliased, vec![("m".to_string(), wide.clone()), ("n".to_string(), wide)]);
}

#[test]
fn type_binding_widens_to_the_common_supertype() {
    let model = bootstrap();
    let mut out = Vec::new();
    bind_type(&generic("T"), &named(INTEGER), &mut out, &model);
    assert_eq!(out, vec![("T".to_string(), named(INTEGER))]);
    bind_type(&generic("T"), &named(STRING), &mut out, &model);
    assert_eq!(out, vec![("T".to_string(), named(any_id()))]);
    let mut nested = Vec::new();
    bind_type(&named_with(LIST, vec![generic("E")]), &named_with(LIST, vec![named(STRING)]), &mut nested, &model);
    assert_eq!(nested, vec![("E".to_string(), named(STRING))]);
}
