use truth_tables::base_formula::{Formula, FormulaRef};
use truth_tables::connective::Connective;
use truth_tables::truth_table::TruthTable;
use truth_tables::truth_value::TruthValue;

fn atom(label: &str) -> FormulaRef {
    Formula::build_wrapped_atomic_wff(label.to_string())
}

#[test]
fn valuation_enumeration_order_for_two_atoms() {
    let (t, f) = (TruthValue::T, TruthValue::F);
    let rows = TruthValue::generate_possible_options_aux(2);
    assert_eq!(
        rows,
        vec![vec![t, t], vec![t, f], vec![f, t], vec![f, f]]
    );
}

#[test]
fn valuation_counts_are_powers_of_two() {
    for n in 0..6 {
        let rows = TruthValue::generate_possible_options_aux(n);
        assert_eq!(rows.len(), 1usize << n);
        for row in &rows {
            assert_eq!(row.len(), n);
            for value in row {
                assert_ne!(*value, TruthValue::Unassigned);
            }
        }
    }
}

#[test]
fn zero_atoms_give_one_empty_row() {
    let table = TruthTable::build_base_truth_table(vec![]);
    let (heads, grid) = table.build_final_truth_table();
    assert!(heads.is_empty());
    assert_eq!(grid.len(), 1);
    assert!(grid[0].is_empty());
}

#[test]
fn grid_has_two_to_the_n_rows() {
    let p = atom("p");
    let q = atom("q");
    let r = atom("r");
    let table = TruthTable::build_base_truth_table(vec![&p, &q, &r]);
    let (heads, grid) = table.build_final_truth_table();
    assert_eq!(heads.len(), 3);
    assert_eq!(grid.len(), 8);
}

#[test]
fn add_compound_fails_on_missing_atom() {
    let p = atom("p");
    let q = atom("q");
    let r = atom("r");
    let imp = Formula::build_wrapped_wff(Connective::Imp, &r, &p);
    let mut table = TruthTable::build_base_truth_table(vec![&p, &q]);
    let err = table
        .add_compound_formula(&imp)
        .expect_err("a compound over an unregistered atom must be refused");
    assert_eq!(err.missing, "r");
}

#[test]
fn add_compound_fails_on_missing_right_subformula() {
    let p = atom("p");
    let q = atom("q");
    let imp = Formula::build_wrapped_wff(Connective::Imp, &p, &q);
    let mut table = TruthTable::build_base_truth_table(vec![&p]);
    let err = table
        .add_compound_formula(&imp)
        .expect_err("the right subformula is not a column");
    assert_eq!(err.missing, "q");
}

#[test]
fn add_compound_fails_on_missing_not_subformula() {
    let p = atom("p");
    let q = atom("q");
    let not_q = Formula::build_wrapped_wff(Connective::Not, &q, &FormulaRef(None));
    let mut table = TruthTable::build_base_truth_table(vec![&p]);
    let err = table
        .add_compound_formula(&not_q)
        .expect_err("the negated subformula is not a column");
    assert_eq!(err.missing, "q");
}

#[test]
fn add_compound_fails_on_unregistered_compound_subformula() {
    let p = atom("p");
    let q = atom("q");
    let conj = Formula::build_wrapped_wff(Connective::And, &p, &q);
    let neg = Formula::build_wrapped_wff(Connective::Not, &conj, &FormulaRef(None));
    let mut table = TruthTable::build_base_truth_table(vec![&p, &q]);
    let err = table
        .add_compound_formula(&neg)
        .expect_err("the conjunction was never registered as a column");
    assert_eq!(err.missing, r"(p /\ q)");
}

#[test]
fn add_compound_succeeds_in_dependency_order() {
    let p = atom("p");
    let q = atom("q");
    let conj = Formula::build_wrapped_wff(Connective::And, &p, &q);
    let neg = Formula::build_wrapped_wff(Connective::Not, &conj, &FormulaRef(None));
    let mut table = TruthTable::build_base_truth_table(vec![&p, &q]);
    table.add_compound_formula(&conj).expect("both atoms are columns");
    table
        .add_compound_formula(&neg)
        .expect("the conjunction is now a column");
    let (heads, grid) = table.build_final_truth_table();
    assert_eq!(heads.len(), 4);
    assert_eq!(grid.len(), 4);
    for row in &grid {
        assert_eq!(row.len(), 4);
    }
}

#[test]
fn end_to_end_three_atom_scenario() {
    let (t, f) = (TruthValue::T, TruthValue::F);
    let p = atom("p");
    let q = atom("q");
    let r = atom("r");
    let conj = Formula::build_wrapped_wff(Connective::And, &p, &q);
    let imp = Formula::build_wrapped_wff(Connective::Imp, &r, &conj);
    let neg = Formula::build_wrapped_wff(Connective::Not, &imp, &FormulaRef(None));
    let mut table = TruthTable::build_base_truth_table(vec![&p, &q, &r]);
    table.add_compound_formula(&conj).unwrap();
    table.add_compound_formula(&imp).unwrap();
    table.add_compound_formula(&neg).unwrap();
    let (heads, grid) = table.build_final_truth_table();
    assert_eq!(heads.len(), 6);
    assert_eq!(grid.len(), 8);

    // p=T, q=T, r=T: the first row of the enumeration.
    assert_eq!(grid[0], vec![t, t, t, t, t, f]);

    // p=F, q=T, r=T: the fifth row (the atom added first varies slowest).
    assert_eq!(grid[4], vec![f, t, t, f, f, t]);
}

#[test]
fn column_values_follow_every_valuation() {
    let (t, f) = (TruthValue::T, TruthValue::F);
    let p = atom("p");
    let q = atom("q");
    let conj = Formula::build_wrapped_wff(Connective::And, &p, &q);
    let mut table = TruthTable::build_base_truth_table(vec![&p, &q]);
    table.add_compound_formula(&conj).unwrap();
    let (_, grid) = table.build_final_truth_table();
    assert_eq!(grid[0], vec![t, t, t]);
    assert_eq!(grid[1], vec![t, f, f]);
    assert_eq!(grid[2], vec![f, t, f]);
    assert_eq!(grid[3], vec![f, f, f]);
}

#[test]
fn header_line_lists_every_column() {
    let p = atom("p");
    let q = atom("q");
    let r = atom("r");
    let conj = Formula::build_wrapped_wff(Connective::And, &p, &q);
    let mut table = TruthTable::build_base_truth_table(vec![&p, &q, &r]);
    table.add_compound_formula(&conj).unwrap();
    let rendered = table.render_final_truth_table();
    let header = rendered.lines().next().expect("the rendering starts with a header");
    assert_eq!(header, r"p | q | r | (p /\ q)");
}

#[test]
fn rendered_table_centers_values_under_headers() {
    let p = atom("p");
    let not_p = Formula::build_wrapped_wff(Connective::Not, &p, &FormulaRef(None));
    let mut table = TruthTable::build_base_truth_table(vec![&p]);
    table.add_compound_formula(&not_p).unwrap();
    let rendered = table.render_final_truth_table();
    assert_eq!(rendered, "p | ~p\nT |  F \nF |  T \n");
}

#[test]
fn rendering_leaves_the_table_reusable() {
    let p = atom("p");
    let not_p = Formula::build_wrapped_wff(Connective::Not, &p, &FormulaRef(None));
    let mut table = TruthTable::build_base_truth_table(vec![&p]);
    table.add_compound_formula(&not_p).unwrap();
    let first = table.render_final_truth_table();
    let second = table.render_final_truth_table();
    assert_eq!(first, second);
}
