use legend_pure::multiplicity::{
    is_multiplicity_compatible, mult_lub, multiplicity_product, widen_to_many,
};
use legend_pure::types::Multiplicity;
use legend_pure::types::Multiplicity::{OneOrMany, PureOne, Range, ZeroOrMany, ZeroOrOne};

#[test]
fn multiplicity_product_table() {

    // Identity: [1] × [1] = [1]
    assert_eq!(multiplicity_product(&PureOne, &PureOne), PureOne);
    // [1] × [0..1] = [0..1]
    assert_eq!(multiplicity_product(&PureOne, &ZeroOrOne), ZeroOrOne);
    // [0..1] × [1] = [0..1]
    assert_eq!(multiplicity_product(&ZeroOrOne, &PureOne), ZeroOrOne);
    // [*] absorbs anything → [*]
    assert_eq!(multiplicity_product(&ZeroOrMany, &PureOne), ZeroOrMany);
    assert_eq!(multiplicity_product(&PureOne, &ZeroOrMany), ZeroOrMany);
    // [1..*] × [1] = [1..*] (lower 1*1=1, upper *=*).
    assert_eq!(multiplicity_product(&OneOrMany, &PureOne), OneOrMany);
    // [1..*] × [0..1] = [*] (lower 1*0=0, upper *).
    assert_eq!(multiplicity_product(&OneOrMany, &ZeroOrOne), ZeroOrMany);
    // [2] × [1] = [2]
    assert_eq!(
        multiplicity_product(
            &Range {
                lower: 2,
                upper: Some(2)
            },
            &PureOne,
        ),
        Range {
            lower: 2,
            upper: Some(2)
        },
    );
    // [2..3] × [1..*] = [2..*]
    assert_eq!(
        multiplicity_product(
            &Range {
                lower: 2,
                upper: Some(3)
            },
            &OneOrMany,
        ),
        Range {
            lower: 2,
            upper: None
        },
    );
}

#[test]
fn widen_lower_bounds_preserved() {
    assert_eq!(widen_to_many(&Multiplicity::PureOne), Multiplicity::OneOrMany);
    assert_eq!(widen_to_many(&Multiplicity::ZeroOrOne), Multiplicity::ZeroOrMany);
    assert_eq!(widen_to_many(&Multiplicity::ZeroOrMany), Multiplicity::ZeroOrMany);
    assert_eq!(widen_to_many(&Multiplicity::OneOrMany), Multiplicity::OneOrMany);
    assert_eq!(
        widen_to_many(&Multiplicity::Range { lower: 2, upper: Some(5) }),
        Multiplicity::Range { lower: 2, upper: None }
    );
}

#[test]
fn widen_variable_and_ranges() {
    assert_eq!(widen_to_many(&Multiplicity::Variable("m".to_string())), Multiplicity::ZeroOrMany);
    assert_eq!(
        widen_to_many(&Multiplicity::Range { lower: 0, upper: Some(3) }),
        Multiplicity::ZeroOrMany
    );
    assert_eq!(
        widen_to_many(&Multiplicity::Range { lower: 1, upper: Some(3) }),
        Multiplicity::OneOrMany
    );
}

#[test]
fn product_with_variable_keeps_receiver() {
    let m = Multiplicity::Variable("m".to_string());
    assert_eq!(multiplicity_product(&Multiplicity::ZeroOrOne, &m), Multiplicity::ZeroOrOne);
    assert_eq!(multiplicity_product(&m, &Multiplicity::OneOrMany), m);
}

#[test]
fn compatibility_examples() {
    assert!(is_multiplicity_compatible(None, &PureOne));
    assert!(is_multiplicity_compatible(Some(&PureOne), &ZeroOrMany));
    assert!(is_multiplicity_compatible(Some(&PureOne), &ZeroOrOne));
    assert!(!is_multiplicity_compatible(Some(&ZeroOrMany), &PureOne));
    assert!(!is_multiplicity_compatible(Some(&ZeroOrOne), &OneOrMany));
    assert!(is_multiplicity_compatible(Some(&Range { lower: 2, upper: Some(3) }), &OneOrMany));
}

#[test]
fn lub_examples() {
    assert_eq!(mult_lub(&PureOne, &PureOne), PureOne);
    assert_eq!(mult_lub(&PureOne, &ZeroOrOne), ZeroOrOne);
    assert_eq!(mult_lub(&PureOne, &OneOrMany), OneOrMany);
    assert_eq!(mult_lub(&ZeroOrOne, &OneOrMany), Range { lower: 0, upper: None });
}

#[test]
fn zero_or_many_absorbs_even_an_empty_range() {
    let empty = Range { lower: 0, upper: Some(0) };
    assert_eq!(multiplicity_product(&empty, &ZeroOrMany), ZeroOrMany);
    assert_eq!(multiplicity_product(&ZeroOrMany, &empty), ZeroOrMany);
    assert_eq!(multiplicity_product(&empty, &PureOne), empty);
}
