//! Well-formed formulas as immutable trees, built bottom-up through smart
//! constructors that compute and cache the printable representation.

use vstd::prelude::*;
use crate::connective::Connective;
use crate::connective::symbol_spec;

verus! {

/// The abstract shape of a formula handle: either absent (the unused slot of
/// a unary or atomic node), or a node carrying its main connective, its
/// cached representation, and its two child handles.
pub enum Fml {
    Absent,
    Node { conn: Connective, repr: Seq<char>, left: Box<Fml>, right: Box<Fml> },
}

impl Fml {
    /// The main connective; an absent handle answers `Atomic`.
    pub open spec fn conn(self) -> Connective {
        match self {
            Fml::Absent => Connective::Atomic,
            Fml::Node { conn, .. } => conn,
        }
    }

    /// The cached representation; an absent handle answers the empty string.
    pub open spec fn repr(self) -> Seq<char> {
        match self {
            Fml::Absent => Seq::empty(),
            Fml::Node { repr, .. } => repr,
        }
    }

    /// The left child handle; an absent handle answers a further absent one.
    pub open spec fn left(self) -> Fml {
        match self {
            Fml::Absent => Fml::Absent,
            Fml::Node { left, .. } => *left,
        }
    }

    /// The right child handle; an absent handle answers a further absent one.
    pub open spec fn right(self) -> Fml {
        match self {
            Fml::Absent => Fml::Absent,
            Fml::Node { right, .. } => *right,
        }
    }

    /// Structural validity: an atomic node has no children; a `Not` node has
    /// exactly a left child; a binary node has both children; and every
    /// node's representation is computed from its children's by the fixed
    /// rule.
    pub open spec fn wf(self) -> bool
        decreases self,
    {
        match self {
            Fml::Absent => true,
            Fml::Node { conn, repr, left, right } => match conn {
                Connective::Atomic => *left is Absent && *right is Absent,
                Connective::Not => *left is Node && *right is Absent && left.wf() && repr
                    == seq!['~'] + left.repr(),
                _ => *left is Node && *right is Node && left.wf() && right.wf() && repr
                    == seq!['('] + left.repr() + seq![' '] + symbol_spec(conn) + seq![' ']
                    + right.repr() + seq![')'],
            },
        }
    }
}

/// A present node with the given connective, representation, and children.
pub open spec fn node_fml(conn: Connective, repr: Seq<char>, left: Fml, right: Fml) -> Fml {
    Fml::Node { conn, repr, left: Box::new(left), right: Box::new(right) }
}

/// A leaf node carrying the given label as its representation.
pub open spec fn atom_fml(label: Seq<char>) -> Fml {
    node_fml(Connective::Atomic, label, Fml::Absent, Fml::Absent)
}

/// The representation a new node gets: `(left symbol right)` when both
/// children are present, the symbol glued to the single present child for a
/// unary node, and the empty string when both are absent.
pub open spec fn repr_wff_spec(conn: Connective, left: Fml, right: Fml) -> Seq<char> {
    if left is Node && right is Node {
        seq!['('] + left.repr() + seq![' '] + symbol_spec(conn) + seq![' '] + right.repr()
            + seq![')']
    } else if left is Node {
        symbol_spec(conn) + left.repr()
    } else if right is Node {
        symbol_spec(conn) + right.repr()
    } else {
        Seq::empty()
    }
}

/// Whether the pair of child handles fits the arity of the connective: none
/// for `Atomic`, a left child only for `Not`, and both for a binary
/// connective.
pub open spec fn shape_ok(conn: Connective, left: Fml, right: Fml) -> bool {
    match conn {
        Connective::Atomic => left is Absent && right is Absent,
        Connective::Not => left is Node && right is Absent,
        _ => left is Node && right is Node,
    }
}

/// A shared, possibly absent handle to a formula node. The absent handle,
/// `FormulaRef(None)`, fills the unused child slot of a unary or atomic
/// node.
pub struct FormulaRef(pub Option<Box<Formula>>);

/// An immutable formula node: its cached representation, its main
/// connective, and handles to its at most two subformulas.
pub struct Formula {
    repr: String,
    main_connective: Connective,
    left: FormulaRef,
    right: FormulaRef,
}

impl Formula {
    /// The abstract shape of this node.
    pub closed spec fn fml(self) -> Fml
        decreases self,
    {
        Fml::Node {
            conn: self.main_connective,
            repr: self.repr@,
            left: Box::new(self.left.fml()),
            right: Box::new(self.right.fml()),
        }
    }
}

impl FormulaRef {
    /// The abstract shape of the handle.
    pub open spec fn fml(self) -> Fml
        decreases self,
    {
        match self.0 {
            None => Fml::Absent,
            Some(f) => f.fml(),
        }
    }
}

impl View for Formula {
    type V = Fml;

    open spec fn view(&self) -> Fml {
        self.fml()
    }
}

impl View for FormulaRef {
    type V = Fml;

    open spec fn view(&self) -> Fml {
        self.fml()
    }
}

fn clone_formula(f: &Formula) -> (r: Formula)
    ensures
        r@ == f@,
    decreases *f,
{
    Formula {
        repr: f.repr.clone(),
        main_connective: f.main_connective,
        left: clone_formula_ref(&f.left),
        right: clone_formula_ref(&f.right),
    }
}

fn clone_formula_ref(f: &FormulaRef) -> (r: FormulaRef)
    ensures
        r@ == f@,
    decreases *f,
{
    match &f.0 {
        None => FormulaRef(None),
        Some(b) => FormulaRef(Some(Box::new(clone_formula(b)))),
    }
}

impl Clone for Formula {
    /// A copy with the same abstract shape.
    fn clone(&self) -> (r: Self)
        ensures
            r@ == self@,
    {
        clone_formula(self)
    }
}

impl Clone for FormulaRef {
    /// A copy with the same abstract shape.
    fn clone(&self) -> (r: Self)
        ensures
            r@ == self@,
    {
        clone_formula_ref(self)
    }
}

impl FormulaRef {
    /// The node this handle shares, if any.
    pub fn option(&self) -> (r: Option<Box<Formula>>)
        ensures
            (r is Some) == (self@ is Node),
            r matches Some(f) ==> f@ == self@,
    {
        match &self.0 {
            None => None,
            Some(b) => Some(Box::new(clone_formula(b))),
        }
    }

    /// The main connective of the referenced node; `Atomic` for an absent
    /// handle.
    pub fn main_connective(&self) -> (r: Connective)
        ensures
            r == self@.conn(),
    {
        match &self.0 {
            None => Connective::Atomic,
            Some(b) => b.main_connective,
        }
    }

    /// The representation of the referenced node; empty for an absent
    /// handle.
    pub fn repr(&self) -> (r: String)
        ensures
            r@ == self@.repr(),
    {
        match &self.0 {
            None => String::new(),
            Some(b) => b.repr.clone(),
        }
    }

    /// The left subformula of the referenced node; absent for an absent
    /// handle.
    pub fn left_subformula(&self) -> (r: FormulaRef)
        ensures
            r@ == self@.left(),
    {
        match &self.0 {
            None => FormulaRef(None),
            Some(b) => clone_formula_ref(&b.left),
        }
    }

    /// The right subformula of the referenced node; absent for an absent
    /// handle.
    pub fn right_subformula(&self) -> (r: FormulaRef)
        ensures
            r@ == self@.right(),
    {
        match &self.0 {
            None => FormulaRef(None),
            Some(b) => clone_formula_ref(&b.right),
        }
    }
}

impl Formula {
    fn repr_wff(connective: &Connective, left: FormulaRef, right: FormulaRef) -> (r: String)
        ensures
            r@ == repr_wff_spec(*connective, left@, right@),
    {
        proof {
            reveal_strlit("(");
            reveal_strlit(")");
            reveal_strlit(" ");
        }
        match (&left.0, &right.0) {
            (Some(l), Some(rt)) => {
                let mut s = String::new();
                s.append("(");
                s.append(l.repr.as_str());
                s.append(" ");
                s.append(connective.symbol());
                s.append(" ");
                s.append(rt.repr.as_str());
                s.append(")");
                proof {
                    assert(s@ =~= repr_wff_spec(*connective, left@, right@));
                }
                s
            },
            (Some(l), None) => {
                let mut s = String::new();
                s.append(connective.symbol());
                s.append(l.repr.as_str());
                proof {
                    assert(s@ =~= repr_wff_spec(*connective, left@, right@));
                }
                s
            },
            (None, Some(rt)) => {
                let mut s = String::new();
                s.append(connective.symbol());
                s.append(rt.repr.as_str());
                proof {
                    assert(s@ =~= repr_wff_spec(*connective, left@, right@));
                }
                s
            },
            (None, None) => {
                let s = String::new();
                proof {
                    assert(s@ =~= repr_wff_spec(*connective, left@, right@));
                }
                s
            },
        }
    }

    fn wrap_atomic(formula: Formula) -> (r: FormulaRef)
        ensures
            r@ == formula@,
    {
        FormulaRef(Some(Box::new(formula)))
    }

    fn build_atomic_wff(repr: String) -> (r: Formula)
        ensures
            r@ == atom_fml(repr@),
    {
        Formula {
            repr: repr,
            main_connective: Connective::Atomic,
            left: FormulaRef(None),
            right: FormulaRef(None),
        }
    }

    /// A fresh leaf formula whose representation is exactly the given label.
    /// The result is always well formed.
    pub fn build_wrapped_atomic_wff(repr: String) -> (r: FormulaRef)
        ensures
            r@ == atom_fml(repr@),
            r@.wf(),
    {
        Formula::wrap_atomic(Formula::build_atomic_wff(repr))
    }

    fn build_wff(connective: Connective, left: FormulaRef, right: FormulaRef) -> (r: Formula)
        ensures
            r@ == node_fml(connective, repr_wff_spec(connective, left@, right@), left@, right@),
    {
        Formula {
            repr: Formula::repr_wff(&connective, left.clone(), right.clone()),
            main_connective: connective,
            left: left,
            right: right,
        }
    }

    /// A fresh compound formula over the two child handles, with the
    /// representation computed from theirs. When the children are well
    /// formed and fit the connective's arity, the result is well formed.
    pub fn build_wrapped_wff(connective: Connective, left: &FormulaRef, right: &FormulaRef) -> (r:
        FormulaRef)
        ensures
            r@ == node_fml(connective, repr_wff_spec(connective, left@, right@), left@, right@),
            left@.wf() && right@.wf() && shape_ok(connective, left@, right@) ==> r@.wf(),
    {
        let cloned_left: FormulaRef = left.clone();
        let cloned_right: FormulaRef = right.clone();
        let r = Formula::wrap_atomic(Formula::build_wff(connective, cloned_left, cloned_right));
        proof {
            if left@.wf() && right@.wf() && shape_ok(connective, left@, right@) {
                assert(r@.wf());
            }
        }
        r
    }
}

} // verus!
