use legend_pure::resolve::type_ref::{
    lower_const_value, lower_multiplicity, resolve_multiplicity_with_validation, TypeVariableValue,
    WrittenMultiplicity,
};
use legend_pure::resolve::unqualified::ResolutionError;
use legend_pure::types::{ConstValue, Multiplicity, SourceInfo};

fn src(line: u32, col: u32, end_line: u32, end_col: u32) -> SourceInfo {
    SourceInfo {
        source: "test".to_string(),
        start_line: line,
        start_column: col,
        end_line,
        end_column: end_col,
    }
}

#[test]
fn lower_multiplicity_variants() {
    assert_eq!(lower_multiplicity(&WrittenMultiplicity::PureOne), Multiplicity::PureOne);
    assert_eq!(lower_multiplicity(&WrittenMultiplicity::ZeroOrOne), Multiplicity::ZeroOrOne);
    assert_eq!(lower_multiplicity(&WrittenMultiplicity::ZeroOrMany), Multiplicity::ZeroOrMany);
    assert_eq!(lower_multiplicity(&WrittenMultiplicity::OneOrMany), Multiplicity::OneOrMany);
    assert_eq!(
        lower_multiplicity(&WrittenMultiplicity::Range { lower: 2, upper: Some(5) }),
        Multiplicity::Range { lower: 2, upper: Some(5) }
    );
}

#[test]
fn lower_const_value_integer() {
    let s = src(1, 1, 1, 5);
    let v = TypeVariableValue::Integer(255, s);
    assert_eq!(lower_const_value(&v), ConstValue::Integer(255));
}

#[test]
fn lower_const_value_string() {
    let s = src(1, 1, 1, 5);
    let v = TypeVariableValue::String("ok".to_string(), s);
    assert_eq!(lower_const_value(&v), ConstValue::String("ok".to_string()));
}

#[test]
fn lowering_a_variable_keeps_its_name() {
    assert_eq!(
        lower_multiplicity(&WrittenMultiplicity::Variable("m".to_string())),
        Multiplicity::Variable("m".to_string())
    );
}

#[test]
fn declared_multiplicity_parameter_is_accepted() {
    let mut errors: Vec<ResolutionError> = Vec::new();
    let params = vec!["m".to_string(), "n".to_string()];
    let r = resolve_multiplicity_with_validation(
        &WrittenMultiplicity::Variable("n".to_string()),
        &src(3, 4, 3, 5),
        &params,
        &mut errors,
    );
    assert_eq!(r, Multiplicity::Variable("n".to_string()));
    assert!(errors.is_empty());
}

#[test]
fn undeclared_multiplicity_parameter_is_reported() {
    let mut errors: Vec<ResolutionError> = Vec::new();
    let params = vec!["m".to_string()];
    let r = resolve_multiplicity_with_validation(
        &WrittenMultiplicity::Variable("k".to_string()),
        &src(3, 4, 3, 5),
        &params,
        &mut errors,
    );
    assert_eq!(r, Multiplicity::Variable("k".to_string()));
    assert_eq!(errors.len(), 1);
    match &errors[0] {
        ResolutionError::UndeclaredMultiplicityParameter { parameter, source_info } => {
            assert_eq!(parameter, "k");
            assert_eq!(*source_info, src(3, 4, 3, 5));
        }
        other => panic!("unexpected error {:?}", other),
    }
}

#[test]
fn concrete_multiplicity_needs_no_declaration() {
    let mut errors: Vec<ResolutionError> = Vec::new();
    let r = resolve_multiplicity_with_validation(
        &WrittenMultiplicity::Range { lower: 0, upper: None },
        &src(1, 1, 1, 2),
        &[],
        &mut errors,
    );
    assert_eq!(r, Multiplicity::Range { lower: 0, upper: None });
    assert!(errors.is_empty());
}

use legend_pure::ids::ElementId;
use legend_pure::model::{Element, ElementNode, ModelChunk, PureModel};
use legend_pure::nodes::{Class, PrimitiveType};
use legend_pure::resolve::type_ref::{
    resolve_type_ref, resolve_type_spec, FunctionTypeParameter, FunctionTypeSpec, MultiplicityArgument,
    QualifiedName, RelationColumn, RelationTypeSpec, ResolutionContext, TypeReference, TypeSpec,
    UnitReference, FUNCTION_TYPE_SENTINEL, RELATION_TYPE_SENTINEL,
};
use legend_pure::resolve::unqualified::{CachedResolution, ImportScope};
use legend_pure::types::{RelationColumnTypeExpr, TypeExpr};

fn class(type_parameters: &[&str]) -> Class {
    Class {
        type_parameters: type_parameters.iter().map(|s| s.to_string()).collect(),
        type_parameter_variances: vec![],
        multiplicity_parameters: vec![],
        type_variable_parameters: vec![],
        super_types: vec![],
        properties: vec![],
        qualified_properties: vec![],
        constraints: vec![],
        stereotypes: vec![],
        tagged_values: vec![],
        original_milestoned_properties: vec![],
    }
}

fn strings(path: &[&str]) -> Vec<String> {
    path.iter().map(|s| s.to_string()).collect()
}

/// Root `Integer`, `a::Pair<U, V>`, `a::Box`, the metamodel class
/// `RelationType`, the unit `units::Mass~Kilogram` and the root unit
/// `Length~Metre`.
struct Fixture {
    model: PureModel,
    integer: ElementId,
    pair: ElementId,
    boxed: ElementId,
    relation_type: ElementId,
    kilogram: ElementId,
    metre: ElementId,
}

fn fixture() -> Fixture {
    let mut model = PureModel::new();
    let a = model.get_or_create_package(&strings(&["a"]));
    let rel = model.get_or_create_package(&strings(&["meta", "pure", "metamodel", "relation"]));
    let units = model.get_or_create_package(&strings(&["units"]));
    let root = model.root_package;
    let mut chunk = ModelChunk::new(0);
    let entries: Vec<(&str, _, Element)> = vec![
        (
            "Integer",
            root,
            Element::PrimitiveType(PrimitiveType {
                super_type: None,
                super_type_value_arguments: vec![],
                type_variable_parameters: vec![],
                constraints: vec![],
            }),
        ),
        ("Pair", a, Element::Class(class(&["U", "V"]))),
        ("Box", a, Element::Class(class(&[]))),
        ("RelationType", rel, Element::Class(class(&["T"]))),
        ("Mass~Kilogram", units, Element::Class(class(&[]))),
        ("Length~Metre", root, Element::Class(class(&[]))),
    ];
    let mut ids = Vec::new();
    let mut owners = Vec::new();
    for (name, pkg, e) in entries {
        let idx = chunk.alloc_element(
            ElementNode { name: name.to_string(), source_info: src(1, 1, 1, 1), parent_package: pkg },
            e,
        );
        ids.push(ElementId { chunk_id: 0, local_idx: idx });
        owners.push(pkg);
    }
    model.chunks.push(chunk);
    for (id, pkg) in ids.iter().zip(owners) {
        model.register_element(pkg, *id);
    }
    Fixture {
        model,
        integer: ids[0],
        pair: ids[1],
        boxed: ids[2],
        relation_type: ids[3],
        kilogram: ids[4],
        metre: ids[5],
    }
}

fn tref(package: Option<&[&str]>, name: &str, args: Vec<TypeReference>, line: u32) -> TypeReference {
    TypeReference {
        package: package.map(strings),
        name: name.to_string(),
        type_arguments: args,
        multiplicity_arguments: vec![],
        type_variable_values: vec![],
        source_info: src(line, 1, line, 9),
    }
}

fn with_mult(mut t: TypeReference, m: WrittenMultiplicity, line: u32) -> TypeReference {
    t.multiplicity_arguments.push(MultiplicityArgument::Concrete(m, src(line, 2, line, 3)));
    t
}

fn named(element: ElementId, args: Vec<TypeExpr>, line: u32) -> TypeExpr {
    TypeExpr::Named {
        element,
        type_arguments: args,
        multiplicity_arguments: vec![],
        value_arguments: vec![],
        source_info: Some(src(line, 1, line, 9)),
    }
}

#[test]
fn type_parameter_in_scope_is_generic() {
    let f = fixture();
    let tps = strings(&["T"]);
    let ctx = ResolutionContext {
        model: &f.model,
        import_scopes: &[],
        self_package: None,
        type_parameters: &tps,
        multiplicity_parameters: &[],
    };
    let mut cache: Vec<(String, CachedResolution)> = Vec::new();
    let mut errors = Vec::new();
    let r = resolve_type_ref(&tref(None, "T", vec![], 1), &ctx, &mut cache, &mut errors);
    assert_eq!(r, Some(TypeExpr::Generic("T".to_string())));
    assert!(errors.is_empty());
}

#[test]
fn qualified_generic_class_with_its_arguments() {
    let f = fixture();
    let tps = strings(&["T"]);
    let ctx = ResolutionContext {
        model: &f.model,
        import_scopes: &[],
        self_package: None,
        type_parameters: &tps,
        multiplicity_parameters: &[],
    };
    let mut cache = Vec::new();
    let mut errors = Vec::new();
    let t = tref(
        Some(&["a"]),
        "Pair",
        vec![tref(None, "Integer", vec![], 2), tref(None, "T", vec![], 3)],
        1,
    );
    let r = resolve_type_ref(&t, &ctx, &mut cache, &mut errors);
    assert_eq!(
        r,
        Some(named(f.pair, vec![named(f.integer, vec![], 2), TypeExpr::Generic("T".to_string())], 1))
    );
    assert!(errors.is_empty());
    assert_eq!(cache.len(), 1);
}

#[test]
fn generic_class_missing_type_arguments_is_reported() {
    let f = fixture();
    let ctx = ResolutionContext {
        model: &f.model,
        import_scopes: &[],
        self_package: None,
        type_parameters: &[],
        multiplicity_parameters: &[],
    };
    let mut cache = Vec::new();
    let mut errors = Vec::new();
    let t = tref(Some(&["a"]), "Pair", vec![tref(None, "Integer", vec![], 2)], 1);
    let r = resolve_type_ref(&t, &ctx, &mut cache, &mut errors);
    assert_eq!(r, Some(named(f.pair, vec![named(f.integer, vec![], 2)], 1)));
    assert_eq!(errors.len(), 1);
    match &errors[0] {
        ResolutionError::MissingTypeArguments { class_path, expected, got, source_info } => {
            assert_eq!(class_path, "a::Pair");
            assert_eq!((*expected, *got), (2, 1));
            assert_eq!(source_info.start_line, 1);
        }
        other => panic!("unexpected {other:?}"),
    }
    // a class without type parameters takes no complaint
    let mut errors = Vec::new();
    let b = tref(Some(&["a"]), "Box", vec![], 4);
    assert_eq!(resolve_type_ref(&b, &ctx, &mut cache, &mut errors), Some(named(f.boxed, vec![], 4)));
    assert!(errors.is_empty());
}

#[test]
fn unresolved_names_are_reported() {
    let f = fixture();
    let ctx = ResolutionContext {
        model: &f.model,
        import_scopes: &[],
        self_package: None,
        type_parameters: &[],
        multiplicity_parameters: &[],
    };
    let mut cache = Vec::new();
    let mut errors = Vec::new();
    let t = tref(Some(&["x", "y"]), "Nope", vec![tref(None, "Missing", vec![], 2)], 1);
    assert_eq!(resolve_type_ref(&t, &ctx, &mut cache, &mut errors), None);
    // the arguments of an unresolved reference are not looked at
    assert_eq!(errors.len(), 1);
    assert!(matches!(&errors[0], ResolutionError::UnresolvedElement { path, .. } if path == "x::y::Nope"));

    // an argument that does not resolve is dropped and reported
    let mut errors = Vec::new();
    let b = tref(Some(&["a"]), "Box", vec![tref(None, "Missing", vec![], 2)], 1);
    assert_eq!(resolve_type_ref(&b, &ctx, &mut cache, &mut errors), Some(named(f.boxed, vec![], 1)));
    assert_eq!(errors.len(), 1);
    assert!(matches!(&errors[0], ResolutionError::UnresolvedElement { path, source_info } if path == "Missing" && source_info.start_line == 2));
    // met again, the remembered failure is reported at the new place
    let mut errors = Vec::new();
    assert_eq!(resolve_type_ref(&tref(None, "Missing", vec![], 7), &ctx, &mut cache, &mut errors), None);
    assert!(matches!(&errors[0], ResolutionError::UnresolvedElement { source_info, .. } if source_info.start_line == 7));
}

#[test]
fn imports_resolve_simple_names() {
    let f = fixture();
    let scopes = vec![ImportScope::from_path_str("a")];
    let ctx = ResolutionContext {
        model: &f.model,
        import_scopes: &scopes,
        self_package: None,
        type_parameters: &[],
        multiplicity_parameters: &[],
    };
    let mut cache = Vec::new();
    let mut errors = Vec::new();
    let t = tref(None, "Box", vec![], 1);
    assert_eq!(resolve_type_ref(&t, &ctx, &mut cache, &mut errors), Some(named(f.boxed, vec![], 1)));
    assert!(errors.is_empty());
}

#[test]
fn function_type_encoding() {
    let f = fixture();
    let mps = strings(&["m"]);
    let ctx = ResolutionContext {
        model: &f.model,
        import_scopes: &[],
        self_package: None,
        type_parameters: &[],
        multiplicity_parameters: &mps,
    };
    let mut cache = Vec::new();
    let mut errors = Vec::new();
    let param = with_mult(tref(None, "Integer", vec![], 2), WrittenMultiplicity::ZeroOrMany, 2);
    let ret = tref(None, "Missing", vec![], 3);
    let fun = with_mult(
        tref(None, FUNCTION_TYPE_SENTINEL, vec![param, ret], 1),
        WrittenMultiplicity::Variable("k".to_string()),
        1,
    );
    let r = resolve_type_ref(&fun, &ctx, &mut cache, &mut errors);
    assert_eq!(
        r,
        Some(TypeExpr::FunctionType {
            // the parameter's own multiplicity argument stays on its type too
            parameters: vec![(
                TypeExpr::Named {
                    element: f.integer,
                    type_arguments: vec![],
                    multiplicity_arguments: vec![Multiplicity::ZeroOrMany],
                    value_arguments: vec![],
                    source_info: Some(src(2, 1, 2, 9)),
                },
                Multiplicity::ZeroOrMany,
            )],
            return_type: Box::new(TypeExpr::Generic("Any".to_string())),
            return_multiplicity: Multiplicity::Variable("k".to_string()),
        })
    );
    assert_eq!(errors.len(), 2);
    assert!(matches!(&errors[0], ResolutionError::UnresolvedElement { path, .. } if path == "Missing"));
    assert!(matches!(&errors[1], ResolutionError::UndeclaredMultiplicityParameter { parameter, .. } if parameter == "k"));

    // with no type arguments at all: `{-> Any[*]}`
    let mut errors = Vec::new();
    let empty = tref(None, FUNCTION_TYPE_SENTINEL, vec![], 1);
    assert_eq!(
        resolve_type_ref(&empty, &ctx, &mut cache, &mut errors),
        Some(TypeExpr::FunctionType {
            parameters: vec![],
            return_type: Box::new(TypeExpr::Generic("Any".to_string())),
            return_multiplicity: Multiplicity::ZeroOrMany,
        })
    );
    assert!(errors.is_empty());
}

#[test]
fn relation_type_encoding_and_wildcard() {
    let f = fixture();
    let ctx = ResolutionContext {
        model: &f.model,
        import_scopes: &[],
        self_package: None,
        type_parameters: &[],
        multiplicity_parameters: &[],
    };
    let mut cache = Vec::new();
    let mut errors = Vec::new();
    let col_a = with_mult(tref(None, "a", vec![tref(None, "Integer", vec![], 2)], 2), WrittenMultiplicity::PureOne, 2);
    let col_b = tref(None, "b", vec![], 3);
    let rel = tref(None, RELATION_TYPE_SENTINEL, vec![col_a, col_b], 1);
    assert_eq!(
        resolve_type_ref(&rel, &ctx, &mut cache, &mut errors),
        Some(TypeExpr::Relation(vec![
            RelationColumnTypeExpr {
                name: "a".to_string(),
                type_expr: named(f.integer, vec![], 2),
                multiplicity: Multiplicity::PureOne,
            },
            RelationColumnTypeExpr {
                name: "b".to_string(),
                type_expr: TypeExpr::Generic("Any".to_string()),
                multiplicity: Multiplicity::ZeroOrOne,
            },
        ]))
    );
    assert!(errors.is_empty());

    assert_eq!(
        resolve_type_ref(&tref(None, "?", vec![], 4), &ctx, &mut cache, &mut errors),
        Some(TypeExpr::Generic("?".to_string()))
    );
    assert_eq!(
        resolve_type_ref(&tref(None, "?", vec![tref(None, "Integer", vec![], 5)], 4), &ctx, &mut cache, &mut errors),
        Some(TypeExpr::Relation(vec![RelationColumnTypeExpr {
            name: "?".to_string(),
            type_expr: named(f.integer, vec![], 5),
            multiplicity: Multiplicity::PureOne,
        }]))
    );
    assert!(errors.is_empty());
}

fn unit(package: Option<&[&str]>, measure: &str, unit: &str) -> TypeSpec {
    TypeSpec::Unit(UnitReference {
        measure: QualifiedName { package: package.map(strings), name: measure.to_string() },
        unit: unit.to_string(),
        source_info: src(6, 1, 6, 9),
    })
}

#[test]
fn unit_references() {
    let f = fixture();
    let ctx = ResolutionContext {
        model: &f.model,
        import_scopes: &[],
        self_package: None,
        type_parameters: &[],
        multiplicity_parameters: &[],
    };
    let mut cache = Vec::new();
    let mut errors = Vec::new();
    assert_eq!(
        resolve_type_spec(&unit(Some(&["units"]), "Mass", "Kilogram"), &ctx, &mut cache, &mut errors),
        Some(named(f.kilogram, vec![], 6))
    );
    assert_eq!(
        resolve_type_spec(&unit(None, "Length", "Metre"), &ctx, &mut cache, &mut errors),
        Some(named(f.metre, vec![], 6))
    );
    assert!(errors.is_empty());
    assert_eq!(resolve_type_spec(&unit(Some(&["units"]), "Mass", "Gram"), &ctx, &mut cache, &mut errors), None);
    assert!(matches!(&errors[0], ResolutionError::UnresolvedUnit { path, .. } if path == "units::Mass~Gram"));
}

#[test]
fn relation_type_spec_wraps_columns_in_relation_type() {
    let f = fixture();
    let ctx = ResolutionContext {
        model: &f.model,
        import_scopes: &[],
        self_package: None,
        type_parameters: &[],
        multiplicity_parameters: &[],
    };
    let mut cache = Vec::new();
    let mut errors = Vec::new();
    let spec = TypeSpec::Relation(RelationTypeSpec {
        columns: vec![
            RelationColumn {
                name: "id".to_string(),
                type_ref: tref(None, "Integer", vec![], 2),
                multiplicity: Some(WrittenMultiplicity::PureOne),
            },
            RelationColumn { name: "gone".to_string(), type_ref: tref(None, "Missing", vec![], 3), multiplicity: None },
            RelationColumn { name: "n".to_string(), type_ref: tref(None, "Integer", vec![], 4), multiplicity: None },
        ],
        source_info: src(1, 1, 1, 9),
    });
    let r = resolve_type_spec(&spec, &ctx, &mut cache, &mut errors);
    assert_eq!(
        r,
        Some(named(
            f.relation_type,
            vec![TypeExpr::Relation(vec![
                RelationColumnTypeExpr {
                    name: "id".to_string(),
                    type_expr: named(f.integer, vec![], 2),
                    multiplicity: Multiplicity::PureOne,
                },
                RelationColumnTypeExpr {
                    name: "n".to_string(),
                    type_expr: named(f.integer, vec![], 4),
                    multiplicity: Multiplicity::ZeroOrOne,
                },
            ])],
            1
        ))
    );
    assert_eq!(errors.len(), 1);
    assert!(matches!(&errors[0], ResolutionError::UnresolvedElement { path, .. } if path == "Missing"));
}

#[test]
fn relation_type_spec_without_the_metamodel_class() {
    let model = PureModel::new();
    let ctx = ResolutionContext {
        model: &model,
        import_scopes: &[],
        self_package: None,
        type_parameters: &[],
        multiplicity_parameters: &[],
    };
    let mut cache = Vec::new();
    let mut errors = Vec::new();
    let spec = TypeSpec::Relation(RelationTypeSpec {
        columns: vec![RelationColumn { name: "x".to_string(), type_ref: tref(None, "Missing", vec![], 2), multiplicity: None }],
        source_info: src(1, 1, 1, 9),
    });
    assert_eq!(resolve_type_spec(&spec, &ctx, &mut cache, &mut errors), None);
    assert!(errors.is_empty());
}

#[test]
fn function_type_spec_checks_its_multiplicities() {
    let f = fixture();
    let mps = strings(&["m"]);
    let ctx = ResolutionContext {
        model: &f.model,
        import_scopes: &[],
        self_package: None,
        type_parameters: &[],
        multiplicity_parameters: &mps,
    };
    let mut cache = Vec::new();
    let mut errors = Vec::new();
    let spec = TypeSpec::Function(FunctionTypeSpec {
        parameters: vec![FunctionTypeParameter {
            type_ref: tref(None, "Integer", vec![], 2),
            multiplicity: WrittenMultiplicity::Variable("q".to_string()),
            source_info: src(2, 1, 2, 9),
        }],
        return_type: tref(Some(&["a"]), "Box", vec![], 3),
        return_multiplicity: WrittenMultiplicity::Variable("m".to_string()),
        source_info: src(1, 1, 1, 9),
    });
    let r = resolve_type_spec(&spec, &ctx, &mut cache, &mut errors);
    assert_eq!(
        r,
        Some(TypeExpr::FunctionType {
            parameters: vec![(named(f.integer, vec![], 2), Multiplicity::Variable("q".to_string()))],
            return_type: Box::new(named(f.boxed, vec![], 3)),
            return_multiplicity: Multiplicity::Variable("m".to_string()),
        })
    );
    assert_eq!(errors.len(), 1);
    assert!(matches!(&errors[0], ResolutionError::UndeclaredMultiplicityParameter { parameter, source_info } if parameter == "q" && source_info.start_line == 2));

    // a plain type reference goes through unchanged
    let mut errors = Vec::new();
    assert_eq!(
        resolve_type_spec(&TypeSpec::Type(tref(None, "Integer", vec![], 8)), &ctx, &mut cache, &mut errors),
        Some(named(f.integer, vec![], 8))
    );
}
