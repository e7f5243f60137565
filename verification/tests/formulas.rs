use truth_tables::base_formula::{Formula, FormulaRef};
use truth_tables::connective::Connective;

fn atom(label: &str) -> FormulaRef {
    Formula::build_wrapped_atomic_wff(label.to_string())
}

#[test]
fn atomic_formula_carries_its_label() {
    let p = atom("p");
    assert_eq!(p.repr(), "p");
    assert_eq!(p.main_connective(), Connective::Atomic);
    assert!(p.left_subformula().option().is_none());
    assert!(p.right_subformula().option().is_none());
}

#[test]
fn and_representation_round_trip() {
    let p = atom("p");
    let q = atom("q");
    let conj = Formula::build_wrapped_wff(Connective::And, &p, &q);
    assert_eq!(conj.repr(), r"(p /\ q)");
}

#[test]
fn or_representation_round_trip() {
    let p = atom("p");
    let q = atom("q");
    let disj = Formula::build_wrapped_wff(Connective::Or, &p, &q);
    assert_eq!(disj.repr(), r"(p \/ q)");
}

#[test]
fn imp_representation_round_trip() {
    let p = atom("p");
    let q = atom("q");
    let imp = Formula::build_wrapped_wff(Connective::Imp, &p, &q);
    assert_eq!(imp.repr(), "(p -> q)");
}

#[test]
fn bi_imp_representation_round_trip() {
    let p = atom("p");
    let q = atom("q");
    let bi_imp = Formula::build_wrapped_wff(Connective::BiImp, &p, &q);
    assert_eq!(bi_imp.repr(), "(p <-> q)");
}

#[test]
fn not_representation_round_trip() {
    let p = atom("p");
    let not_p = Formula::build_wrapped_wff(Connective::Not, &p, &FormulaRef(None));
    assert_eq!(not_p.repr(), "~p");
    assert_eq!(not_p.main_connective(), Connective::Not);
    assert_eq!(not_p.left_subformula().repr(), "p");
    assert!(not_p.right_subformula().option().is_none());
}

#[test]
fn nested_representation() {
    let p = atom("p");
    let q = atom("q");
    let r = atom("r");
    let conj = Formula::build_wrapped_wff(Connective::And, &p, &q);
    let imp = Formula::build_wrapped_wff(Connective::Imp, &r, &conj);
    let neg = Formula::build_wrapped_wff(Connective::Not, &imp, &FormulaRef(None));
    assert_eq!(imp.repr(), r"(r -> (p /\ q))");
    assert_eq!(neg.repr(), r"~(r -> (p /\ q))");
    assert_eq!(neg.left_subformula().repr(), r"(r -> (p /\ q))");
    assert_eq!(neg.left_subformula().left_subformula().repr(), "r");
    assert_eq!(neg.left_subformula().right_subformula().repr(), r"(p /\ q)");
}

#[test]
fn absent_handle_answers_vacuously() {
    let absent = FormulaRef(None);
    assert_eq!(absent.repr(), "");
    assert_eq!(absent.main_connective(), Connective::Atomic);
    assert!(absent.option().is_none());
    assert_eq!(absent.left_subformula().repr(), "");
    assert_eq!(absent.right_subformula().repr(), "");
}

#[test]
fn subformulas_are_shared_not_consumed() {
    let p = atom("p");
    let not_p = Formula::build_wrapped_wff(Connective::Not, &p, &FormulaRef(None));
    let both = Formula::build_wrapped_wff(Connective::And, &p, &not_p);
    assert_eq!(p.repr(), "p");
    assert_eq!(both.repr(), r"(p /\ ~p)");
}

#[test]
fn cloned_handles_share_the_shape() {
    let p = atom("p");
    let q = atom("q");
    let conj = Formula::build_wrapped_wff(Connective::And, &p, &q);
    let copy = conj.clone();
    assert_eq!(copy.repr(), conj.repr());
    assert_eq!(copy.main_connective(), conj.main_connective());
    assert_eq!(copy.left_subformula().repr(), "p");
}

#[test]
fn option_hands_out_the_node() {
    let p = atom("p");
    let node = p.option().expect("a present handle holds a node");
    let rewrapped = FormulaRef(Some(node));
    assert_eq!(rewrapped.repr(), "p");
}
