use truth_tables::connective::{AndType, AtomicType, BiImpType, Connective, ConnectiveType, ImpType, NotType, OrType};
use truth_tables::truth_value::TruthValue;

#[test]
fn not_rules_swaps_defined_values() {
    assert_eq!(Connective::not_rules(TruthValue::T), TruthValue::F);
    assert_eq!(Connective::not_rules(TruthValue::F), TruthValue::T);
    assert_eq!(
        Connective::not_rules(TruthValue::Unassigned),
        TruthValue::Unassigned
    );
}

#[test]
fn not_is_involution_on_defined_values() {
    for v in [TruthValue::T, TruthValue::F] {
        assert_eq!(Connective::not_rules(Connective::not_rules(v)), v);
    }
}

#[test]
fn and_truth_function() {
    let (t, f) = (TruthValue::T, TruthValue::F);
    assert_eq!(Connective::apply_connective(t, t, Connective::And), t);
    assert_eq!(Connective::apply_connective(t, f, Connective::And), f);
    assert_eq!(Connective::apply_connective(f, t, Connective::And), f);
    assert_eq!(Connective::apply_connective(f, f, Connective::And), f);
}

#[test]
fn or_truth_function() {
    let (t, f) = (TruthValue::T, TruthValue::F);
    assert_eq!(Connective::apply_connective(t, t, Connective::Or), t);
    assert_eq!(Connective::apply_connective(t, f, Connective::Or), t);
    assert_eq!(Connective::apply_connective(f, t, Connective::Or), t);
    assert_eq!(Connective::apply_connective(f, f, Connective::Or), f);
}

#[test]
fn imp_truth_function() {
    let (t, f) = (TruthValue::T, TruthValue::F);
    assert_eq!(Connective::apply_connective(t, t, Connective::Imp), t);
    assert_eq!(Connective::apply_connective(t, f, Connective::Imp), f);
    assert_eq!(Connective::apply_connective(f, t, Connective::Imp), t);
    assert_eq!(Connective::apply_connective(f, f, Connective::Imp), t);
}

#[test]
fn bi_imp_truth_function() {
    let (t, f) = (TruthValue::T, TruthValue::F);
    assert_eq!(Connective::apply_connective(t, t, Connective::BiImp), t);
    assert_eq!(Connective::apply_connective(t, f, Connective::BiImp), f);
    assert_eq!(Connective::apply_connective(f, t, Connective::BiImp), f);
    assert_eq!(Connective::apply_connective(f, f, Connective::BiImp), t);
}

#[test]
fn unassigned_propagates_through_every_binary_connective() {
    let connectives = [
        Connective::And,
        Connective::Or,
        Connective::Imp,
        Connective::BiImp,
    ];
    let values = [TruthValue::T, TruthValue::F, TruthValue::Unassigned];
    for c in connectives {
        for v in values {
            assert_eq!(
                Connective::apply_connective(TruthValue::Unassigned, v, c),
                TruthValue::Unassigned
            );
            assert_eq!(
                Connective::apply_connective(v, TruthValue::Unassigned, c),
                TruthValue::Unassigned
            );
        }
    }
}

#[test]
fn binary_evaluator_on_unary_or_atomic_tag_yields_unassigned() {
    assert_eq!(
        Connective::apply_connective(TruthValue::T, TruthValue::T, Connective::Not),
        TruthValue::Unassigned
    );
    assert_eq!(
        Connective::apply_connective(TruthValue::T, TruthValue::T, Connective::Atomic),
        TruthValue::Unassigned
    );
}

#[test]
fn tautology_and_contradiction_shapes() {
    for x in [TruthValue::T, TruthValue::F] {
        let not_x = Connective::not_rules(x);
        assert_eq!(
            Connective::apply_connective(x, x, Connective::BiImp),
            TruthValue::T
        );
        assert_eq!(
            Connective::apply_connective(x, not_x, Connective::And),
            TruthValue::F
        );
        assert_eq!(
            Connective::apply_connective(x, not_x, Connective::Or),
            TruthValue::T
        );
    }
}

#[test]
fn connective_symbols() {
    assert_eq!(Connective::And.symbol(), r"/\");
    assert_eq!(Connective::Or.symbol(), r"\/");
    assert_eq!(Connective::Not.symbol(), "~");
    assert_eq!(Connective::Imp.symbol(), "->");
    assert_eq!(Connective::BiImp.symbol(), "<->");
    assert_eq!(Connective::Atomic.symbol(), "");
}

#[test]
fn truth_value_text() {
    assert_eq!(TruthValue::T.text(), "T");
    assert_eq!(TruthValue::F.text(), "F");
    assert_eq!(TruthValue::Unassigned.text(), "Unassigned");
}

#[test]
fn connective_marker_types() {
    assert_eq!(AndType::connective(), Connective::And);
    assert_eq!(OrType::connective(), Connective::Or);
    assert_eq!(NotType::connective(), Connective::Not);
    assert_eq!(ImpType::connective(), Connective::Imp);
    assert_eq!(BiImpType::connective(), Connective::BiImp);
    assert_eq!(AtomicType::connective(), Connective::Atomic);
}
