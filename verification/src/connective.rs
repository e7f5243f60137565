//! Logical connectives and their truth-functional evaluation rules.

use vstd::prelude::*;
use crate::truth_value::TruthValue;

verus! {

/// A logical connective. `Atomic` marks a leaf formula and is never paired
/// with subformulas.
#[derive(Clone, Copy, Debug, PartialEq, Eq, Structural)]
pub enum Connective {
    And,
    Or,
    Not,
    Imp,
    BiImp,
    Atomic,
}

/// The canonical display symbol of a connective. `Atomic` has none.
pub open spec fn symbol_spec(c: Connective) -> Seq<char> {
    match c {
        Connective::And => seq!['/', '\\'],
        Connective::Or => seq!['\\', '/'],
        Connective::Not => seq!['~'],
        Connective::Imp => seq!['-', '>'],
        Connective::BiImp => seq!['<', '-', '>'],
        Connective::Atomic => Seq::empty(),
    }
}

/// Negation: `T` and `F` swap, `Unassigned` stays.
pub open spec fn eval_not(val: TruthValue) -> TruthValue {
    match val {
        TruthValue::Unassigned => TruthValue::Unassigned,
        TruthValue::T => TruthValue::F,
        TruthValue::F => TruthValue::T,
    }
}

/// Conjunction: `T` only when both operands are `T`; `Unassigned` propagates.
pub open spec fn eval_and(val1: TruthValue, val2: TruthValue) -> TruthValue {
    if val1 == TruthValue::Unassigned || val2 == TruthValue::Unassigned {
        TruthValue::Unassigned
    } else if val1 == TruthValue::T && val2 == TruthValue::T {
        TruthValue::T
    } else {
        TruthValue::F
    }
}

/// Disjunction: `F` only when both operands are `F`; `Unassigned` propagates.
pub open spec fn eval_or(val1: TruthValue, val2: TruthValue) -> TruthValue {
    if val1 == TruthValue::Unassigned || val2 == TruthValue::Unassigned {
        TruthValue::Unassigned
    } else if val1 == TruthValue::F && val2 == TruthValue::F {
        TruthValue::F
    } else {
        TruthValue::T
    }
}

/// Implication: `F` only for `T -> F`; `Unassigned` propagates.
pub open spec fn eval_imp(val1: TruthValue, val2: TruthValue) -> TruthValue {
    if val1 == TruthValue::Unassigned || val2 == TruthValue::Unassigned {
        TruthValue::Unassigned
    } else if val1 == TruthValue::T && val2 == TruthValue::F {
        TruthValue::F
    } else {
        TruthValue::T
    }
}

/// Biconditional: `T` when both defined operands agree, `F` when they differ;
/// `Unassigned` propagates.
pub open spec fn eval_bi_imp(val1: TruthValue, val2: TruthValue) -> TruthValue {
    if val1 == TruthValue::Unassigned || val2 == TruthValue::Unassigned {
        TruthValue::Unassigned
    } else if val1 == val2 {
        TruthValue::T
    } else {
        TruthValue::F
    }
}

/// The binary truth function of a connective. Applying the binary evaluator
/// to the unary `Not` or to `Atomic` is a caller error and yields
/// `Unassigned`.
pub open spec fn apply_connective_spec(
    val1: TruthValue,
    val2: TruthValue,
    connective: Connective,
) -> TruthValue {
    match connective {
        Connective::And => eval_and(val1, val2),
        Connective::Or => eval_or(val1, val2),
        Connective::Imp => eval_imp(val1, val2),
        Connective::BiImp => eval_bi_imp(val1, val2),
        Connective::Not => TruthValue::Unassigned,
        Connective::Atomic => TruthValue::Unassigned,
    }
}

impl Connective {
    /// The canonical display symbol, as text.
    pub fn symbol(&self) -> (r: &'static str)
        ensures
            r@ == symbol_spec(*self),
    {
        match self {
            Connective::And => {
                let r = "/\\";
                proof {
                    reveal_strlit("/\\");
                    assert(r@ =~= symbol_spec(Connective::And));
                }
                r
            },
            Connective::Or => {
                let r = "\\/";
                proof {
                    reveal_strlit("\\/");
                    assert(r@ =~= symbol_spec(Connective::Or));
                }
                r
            },
            Connective::Not => {
                let r = "~";
                proof {
                    reveal_strlit("~");
                    assert(r@ =~= symbol_spec(Connective::Not));
                }
                r
            },
            Connective::Imp => {
                let r = "->";
                proof {
                    reveal_strlit("->");
                    assert(r@ =~= symbol_spec(Connective::Imp));
                }
                r
            },
            Connective::BiImp => {
                let r = "<->";
                proof {
                    reveal_strlit("<->");
                    assert(r@ =~= symbol_spec(Connective::BiImp));
                }
                r
            },
            Connective::Atomic => {
                let r = "";
                proof {
                    reveal_strlit("");
                    assert(r@ =~= symbol_spec(Connective::Atomic));
                }
                r
            },
        }
    }

    fn and_rules(val1: TruthValue, val2: TruthValue) -> (r: TruthValue)
        ensures
            r == eval_and(val1, val2),
    {
        match (val1, val2) {
            (TruthValue::Unassigned, _) | (_, TruthValue::Unassigned) => TruthValue::Unassigned,
            (TruthValue::T, TruthValue::T) => TruthValue::T,
            (_, _) => TruthValue::F,
        }
    }

    fn or_rules(val1: TruthValue, val2: TruthValue) -> (r: TruthValue)
        ensures
            r == eval_or(val1, val2),
    {
        match (val1, val2) {
            (TruthValue::Unassigned, _) | (_, TruthValue::Unassigned) => TruthValue::Unassigned,
            (TruthValue::F, TruthValue::F) => TruthValue::F,
            (_, _) => TruthValue::T,
        }
    }

    fn imp_rules(val1: TruthValue, val2: TruthValue) -> (r: TruthValue)
        ensures
            r == eval_imp(val1, val2),
    {
        match (val1, val2) {
            (TruthValue::Unassigned, _) | (_, TruthValue::Unassigned) => TruthValue::Unassigned,
            (TruthValue::T, TruthValue::F) => TruthValue::F,
            (_, _) => TruthValue::T,
        }
    }

    fn bi_imp_rules(val1: TruthValue, val2: TruthValue) -> (r: TruthValue)
        ensures
            r == eval_bi_imp(val1, val2),
    {
        match (val1, val2) {
            (TruthValue::Unassigned, _) | (_, TruthValue::Unassigned) => TruthValue::Unassigned,
            (TruthValue::T, TruthValue::T) | (TruthValue::F, TruthValue::F) => TruthValue::T,
            (_, _) => TruthValue::F,
        }
    }

    /// Negation of a truth value.
    pub fn not_rules(val: TruthValue) -> (r: TruthValue)
        ensures
            r == eval_not(val),
    {
        match val {
            TruthValue::Unassigned => TruthValue::Unassigned,
            TruthValue::T => TruthValue::F,
            TruthValue::F => TruthValue::T,
        }
    }

    /// The binary truth function of `connective` on the two operand values.
    pub fn apply_connective(val1: TruthValue, val2: TruthValue, connective: Connective) -> (r:
        TruthValue)
        ensures
            r == apply_connective_spec(val1, val2, connective),
    {
        match connective {
            Connective::And => Connective::and_rules(val1, val2),
            Connective::Or => Connective::or_rules(val1, val2),
            Connective::Imp => Connective::imp_rules(val1, val2),
            Connective::BiImp => Connective::bi_imp_rules(val1, val2),
            Connective::Not => TruthValue::Unassigned,
            Connective::Atomic => TruthValue::Unassigned,
        }
    }
}

/// Negation is an involution on defined values: negating twice gives the
/// value back, for both `T` and `F`.
pub proof fn lemma_not_involution(val: TruthValue)
    requires
        val.is_defined(),
    ensures
        eval_not(eval_not(val)) == val,
{
}

/// Tautology and contradiction shapes, for every defined value `val`:
/// `val <-> val` is `T`, `val /\ ~val` is `F`, and `val \/ ~val` is `T`.
pub proof fn lemma_tautology_shapes(val: TruthValue)
    requires
        val.is_defined(),
    ensures
        eval_bi_imp(val, val) == TruthValue::T,
        eval_and(val, eval_not(val)) == TruthValue::F,
        eval_or(val, eval_not(val)) == TruthValue::T,
{
}

/// `Unassigned` is absorbing: every binary connective yields `Unassigned` as
/// soon as either operand is `Unassigned`.
pub proof fn lemma_unassigned_absorbs(
    val1: TruthValue,
    val2: TruthValue,
    connective: Connective,
)
    requires
        val1 == TruthValue::Unassigned || val2 == TruthValue::Unassigned,
    ensures
        apply_connective_spec(val1, val2, connective) == TruthValue::Unassigned,
{
}

/// A marker type that names a connective at the type level.
pub trait ConnectiveType {
    /// The connective the type stands for.
    fn connective() -> Connective;
}

pub struct AndType;

pub struct OrType;

pub struct NotType;

pub struct ImpType;

pub struct BiImpType;

pub struct AtomicType;

impl ConnectiveType for AndType {
    fn connective() -> (c: Connective)
        ensures
            c == Connective::And,
    {
        Connective::And
    }
}

impl ConnectiveType for OrType {
    fn connective() -> (c: Connective)
        ensures
            c == Connective::Or,
    {
        Connective::Or
    }
}

impl ConnectiveType for NotType {
    fn connective() -> (c: Connective)
        ensures
            c == Connective::Not,
    {
        Connective::Not
    }
}

impl ConnectiveType for ImpType {
    fn connective() -> (c: Connective)
        ensures
            c == Connective::Imp,
    {
        Connective::Imp
    }
}

impl ConnectiveType for BiImpType {
    fn connective() -> (c: Connective)
        ensures
            c == Connective::BiImp,
    {
        Connective::BiImp
    }
}

impl ConnectiveType for AtomicType {
    fn connective() -> (c: Connective)
        ensures
            c == Connective::Atomic,
    {
        Connective::Atomic
    }
}

} // verus!
