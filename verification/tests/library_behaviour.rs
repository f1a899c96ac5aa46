use symbolic_mr::api::crate_name;
use symbolic_mr::fixtures::{FixtureError, fixture_path, parse_op};
use symbolic_mr::{
    CasReference, OperatorProduct, SimplifyError, TensorSimplifyError, active, annihilate, core_,
    create, delta, expectation, general, matrix_element, normal_order_product, operator_string,
    simplify_tensor_form, trace_expectation, virtual_,
};

fn reduce(product: OperatorProduct) -> Result<String, TensorSimplifyError> {
    simplify_tensor_form(expectation(product, CasReference::new()), Default::default())
        .map(|form| form.to_string())
}

#[test]
fn normal_ordering_refuses_an_empty_string() {
    let result = normal_order_product(operator_string(vec![]));
    assert!(matches!(result, Err(SimplifyError::EmptyOperatorProduct)));
}

#[test]
fn annihilator_before_creator_becomes_delta_minus_exchanged_pair() {
    let result = normal_order_product(annihilate(active("u")) * create(active("u"))).unwrap();
    assert_eq!(result.to_string(), "delta(u,u) - a†(u) a(u)");
}

#[test]
fn repeated_creator_normal_orders_to_nothing() {
    let result = normal_order_product(
        create(core_("i")) * create(core_("i")) * annihilate(core_("j")),
    )
    .unwrap();
    assert!(result.terms().is_empty());
    assert_eq!(result.to_string(), "");
}

#[test]
fn normal_ordered_terms_normal_order_to_themselves() {
    let expr = annihilate(active("x"))
        * create(active("u"))
        * create(active("v"))
        * annihilate(active("w"));
    let ordered = normal_order_product(expr).unwrap();
    assert!(!ordered.terms().is_empty());
    for term in ordered.terms() {
        assert_ne!(term.coefficient(), 0);
        if term.product().ops().is_empty() {
            continue;
        }
        let rerun = normal_order_product(term.product().clone()).unwrap();
        assert_eq!(rerun.terms().len(), 1);
        assert_eq!(rerun.terms()[0].coefficient(), 1);
        assert!(rerun.terms()[0].deltas().is_empty());
        assert_eq!(rerun.terms()[0].product(), term.product());
    }
}

#[test]
fn canonical_order_is_idempotent() {
    let product = operator_string(vec![
        annihilate(active("v")),
        create(core_("j")),
        annihilate(active("u")),
        create(core_("i")),
    ]);
    let once = product.canonicalize();
    let twice = once.canonicalize();
    assert_eq!(once, twice);
    assert_eq!(once.ops().len(), 4);
}

#[test]
fn reduction_refuses_an_empty_expectation() {
    assert_eq!(
        reduce(operator_string(vec![])),
        Err(TensorSimplifyError::UnsupportedReferenceCase)
    );
}

#[test]
fn reduction_refuses_an_odd_string() {
    let product = create(active("u")) * create(active("v")) * annihilate(active("w"));
    assert_eq!(
        reduce(product),
        Err(TensorSimplifyError::UnsupportedOperatorRank)
    );
}

#[test]
fn reduction_refuses_general_indices() {
    let product = create(general("p")) * annihilate(general("q"));
    assert_eq!(
        reduce(product),
        Err(TensorSimplifyError::UnsupportedReferenceCase)
    );
}

#[test]
fn core_diagonal_one_body_is_a_delta() {
    let product = create(core_("i")) * annihilate(core_("i"));
    assert_eq!(reduce(product).unwrap(), "delta(i,i)");
}

#[test]
fn virtual_creator_gives_zero() {
    let product = create(virtual_("a")) * annihilate(active("u"));
    assert_eq!(reduce(product).unwrap(), "0");
}

#[test]
fn repeated_core_creators_give_zero() {
    let product = create(core_("i"))
        * create(core_("i"))
        * annihilate(core_("j"))
        * annihilate(core_("j"));
    assert_eq!(reduce(product).unwrap(), "0");
}

#[test]
fn contradictory_delta_reduces_to_zero() {
    let form = simplify_tensor_form(delta(core_("i"), active("u")), Default::default()).unwrap();
    assert_eq!(form.to_string(), "0");
}

#[test]
fn delta_with_a_general_index_is_kept() {
    let form = simplify_tensor_form(delta(general("p"), core_("i")), Default::default()).unwrap();
    assert_eq!(form.to_string(), "delta(p,i)");
}

#[test]
fn trace_ends_in_the_simplified_form() {
    let build = || {
        expectation(
            annihilate(active("x")) * create(active("u")) * create(active("v")) * annihilate(active("w")),
            CasReference::new(),
        )
    };
    let trace = trace_expectation(build(), Default::default()).unwrap();
    let simplified = simplify_tensor_form(build(), Default::default()).unwrap();
    assert_eq!(trace.final_form().to_string(), simplified.to_string());
    assert!(!trace.normal_ordered().terms().is_empty());
}

#[test]
fn matrix_element_reduces_as_its_concatenated_expectation() {
    let left = || create(active("u")) * annihilate(virtual_("a"));
    let hamiltonian = || create(active("x")) * annihilate(active("y"));
    let right = || create(virtual_("b")) * annihilate(active("v"));
    let element = simplify_tensor_form(
        matrix_element(left(), Some(hamiltonian()), right(), CasReference::new()),
        Default::default(),
    )
    .unwrap();
    let mut ops = Vec::new();
    ops.extend(left().into_ops());
    ops.extend(hamiltonian().into_ops());
    ops.extend(right().into_ops());
    let concatenated = reduce(operator_string(ops)).unwrap();
    assert_eq!(element.to_string(), concatenated);
}

#[test]
fn parse_op_reports_a_missing_parenthesis() {
    let err = parse_op("create").unwrap_err();
    assert_eq!(err, FixtureError::InvalidOp("create".to_string()));
    assert_eq!(err.message(), "invalid fixture op: create");
}

#[test]
fn parse_op_reports_a_missing_colon() {
    let err = parse_op("create(u)").unwrap_err();
    assert_eq!(err, FixtureError::InvalidPayload("create(u)".to_string()));
    assert_eq!(err.message(), "invalid fixture op payload: create(u)");
}

#[test]
fn parse_op_reports_an_unknown_kind() {
    let err = parse_op("destroy(u:active)").unwrap_err();
    assert_eq!(err, FixtureError::UnsupportedKind("destroy".to_string()));
    assert_eq!(err.message(), "unsupported fixture op kind: destroy");
}

#[test]
fn parse_op_reports_an_unknown_space() {
    let err = parse_op("create(u:spin)").unwrap_err();
    assert_eq!(err, FixtureError::UnsupportedSpace("spin".to_string()));
    assert_eq!(err.message(), "unsupported fixture space: spin");
}

#[test]
fn parse_op_decodes_a_well_formed_operator() {
    let op = parse_op("annihilate(a:virtual)").unwrap();
    assert_eq!(op, annihilate(virtual_("a")));
}

#[test]
fn fixture_path_names_the_suite_file() {
    assert_eq!(
        fixture_path("reference_one_body"),
        "tests/fixtures/reference_one_body.json"
    );
}

#[test]
fn crate_name_is_symbolic_mr() {
    assert_eq!(crate_name(), "symbolic_mr");
}

#[test]
fn split_sum_terms_keeps_each_sign_with_its_term() {
    let parts = symbolic_mr::showcase::split_sum_terms(
        "delta(i,l) * delta(j,k) - delta(i,k) * delta(j,l) + gamma(u,v)",
    );
    assert_eq!(
        parts,
        vec![
            "delta(i,l) * delta(j,k)".to_string(),
            "- delta(i,k) * delta(j,l)".to_string(),
            "+ gamma(u,v)".to_string(),
        ]
    );
}

#[test]
fn split_sum_terms_keeps_a_single_term_whole() {
    let parts = symbolic_mr::showcase::split_sum_terms("  gamma(u,v) ");
    assert_eq!(parts, vec!["gamma(u,v)".to_string()]);
    let blank = symbolic_mr::showcase::split_sum_terms("   ");
    assert_eq!(blank, vec!["   ".to_string()]);
}

#[test]
fn cross_check_layout_puts_terms_on_lines() {
    let laid_out = symbolic_mr::showcase::format_cross_check_expression("a - b + c");
    assert_eq!(laid_out, "a\n- b\n+ c");
    let higher = symbolic_mr::showcase::format_cross_check_expression(
        "HigherRDM(order=3, fragment=a†(u) a(u))",
    );
    assert_eq!(higher, "HigherRDM(order=3,\nfragment=a†(u) a(u))");
}

#[test]
fn generator_follows_its_recurrence() {
    let mut rng = symbolic_mr::showcase::Lcg::new(0x5EED_2026);
    let picks: Vec<usize> = (0..5).map(|_| rng.next_usize(7)).collect();
    assert_eq!(picks, vec![3, 4, 4, 0, 0]);
}

#[test]
fn sampled_cases_cover_each_category() {
    let one = symbolic_mr::showcase::sampled_case(0);
    assert_eq!(one.category, "one-body");
    assert_eq!(one.input, "⟨Ψ_CAS| a†(i) a(j) |Ψ_CAS⟩");
    let two = symbolic_mr::showcase::sampled_case(4);
    assert_eq!(two.category, "two-body");
    let last = symbolic_mr::showcase::sampled_case(99);
    assert_eq!(last.category, "matrix-element");
    assert_eq!(last.input, "⟨Ψ_CAS| a†(u)a(a) (a†(x)a(y)) a†(b)a(v) |Ψ_CAS⟩");
    match two.expr {
        symbolic_mr::showcase::SampleExpr::Expectation(expr) => {
            let form = simplify_tensor_form(expr, Default::default()).unwrap();
            assert_eq!(
                form.to_string(),
                "delta(i,l) * delta(j,k) - delta(i,k) * delta(j,l)"
            );
        }
        symbolic_mr::showcase::SampleExpr::MatrixElement(_) => panic!("expected an expectation"),
    }
}

#[test]
fn deltas_stay_when_their_string_reduces_to_nothing() {
    let product = annihilate(active("u"))
        * create(active("u"))
        * create(virtual_("a"))
        * annihilate(virtual_("b"));
    assert_eq!(reduce(product).unwrap(), "delta(u,u)");
}

#[test]
fn fixture_path_keeps_an_absolute_name() {
    assert_eq!(fixture_path("/x"), "/x.json");
    assert_eq!(fixture_path(""), "tests/fixtures/.json");
}

#[test]
fn coefficient_range_checks_accept_ordinary_strings() {
    let product = annihilate(active("x"))
        * create(active("u"))
        * create(active("v"))
        * annihilate(active("w"));
    assert!(symbolic_mr::rewrite::like_terms_fit_check(&product));
    assert!(symbolic_mr::reference::reference_fits_check(&product));
    assert!(symbolic_mr::reference::reference_fits_check(&operator_string(vec![])));
}

#[test]
fn sample_output_is_the_reduced_form() {
    let sample = symbolic_mr::showcase::sampled_case(3);
    assert_eq!(sample.output().unwrap(), "- delta(i,j) * gamma(u,v)");
    let element = symbolic_mr::showcase::sampled_case(5);
    assert!(element.output().is_ok());
}
