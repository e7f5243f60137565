//! The truth-table engine: an ordered list of atom columns, compound columns
//! registered in dependency order, valuation enumeration, bottom-up value
//! propagation, and text rendering.

use vstd::prelude::*;
use crate::base_formula::Fml;
use crate::base_formula::FormulaRef;
use crate::connective::Connective;
use crate::connective::apply_connective_spec;
use crate::connective::eval_not;
use crate::truth_value::TruthValue;
use crate::truth_value::grid_of;
use crate::truth_value::valuations;
use vstd::arithmetic::power2::pow2;

verus! {

/// The representations of a sequence of columns, in column order.
pub open spec fn col_reprs(cols: Seq<Fml>) -> Seq<Seq<char>> {
    Seq::new(cols.len(), |i: int| cols[i].repr())
}

/// Whether some column carries the given representation.
pub open spec fn has_column(cols: Seq<Fml>, repr: Seq<char>) -> bool {
    col_reprs(cols).contains(repr)
}

/// The index of the first column carrying the given representation
/// (meaningful only when such a column exists).
pub open spec fn first_column_with(cols: Seq<Fml>, repr: Seq<char>) -> int
    decreases cols.len(),
{
    if cols.len() == 0 {
        0
    } else if cols[0].repr() == repr {
        0
    } else {
        1 + first_column_with(cols.drop_first(), repr)
    }
}

/// When a column with the given representation exists, the first such index
/// is in range, carries it, and no earlier column does.
pub proof fn lemma_first_column_with(cols: Seq<Fml>, repr: Seq<char>)
    requires
        has_column(cols, repr),
    ensures
        0 <= first_column_with(cols, repr) < cols.len(),
        cols[first_column_with(cols, repr)].repr() == repr,
        forall|j: int| 0 <= j < first_column_with(cols, repr) ==> cols[j].repr() != repr,
    decreases cols.len(),
{
    let witness = choose|i: int| 0 <= i < col_reprs(cols).len() && col_reprs(cols)[i] == repr;
    if cols[0].repr() == repr {
    } else {
        let rest = cols.drop_first();
        assert(col_reprs(rest)[witness - 1] == repr);
        assert(has_column(rest, repr));
        lemma_first_column_with(rest, repr);
        let fi = first_column_with(cols, repr);
        assert forall|j: int| 0 <= j < fi implies cols[j].repr() != repr by {
            if j > 0 {
                assert(cols[j].repr() == rest[j - 1].repr());
            }
        }
    }
}

/// When the representation already occurs among the first `k` columns, the
/// first column carrying it is among them too.
pub proof fn lemma_first_column_within(cols: Seq<Fml>, repr: Seq<char>, k: int)
    requires
        0 <= k <= cols.len(),
        has_column(cols.take(k), repr),
    ensures
        has_column(cols, repr),
        0 <= first_column_with(cols, repr) < k,
{
    let witness = choose|i: int|
        0 <= i < col_reprs(cols.take(k)).len() && col_reprs(cols.take(k))[i] == repr;
    assert(col_reprs(cols)[witness] == repr);
    assert(has_column(cols, repr));
    lemma_first_column_with(cols, repr);
    let fi = first_column_with(cols, repr);
    if fi >= k {
        assert(cols[witness].repr() != repr);
    }
}

/// Whether every column the formula's evaluation will look up is already
/// present: the left subformula's representation for a `Not`-rooted formula,
/// and both subformulas' representations otherwise.
pub open spec fn dep_ok(f: Fml, cols: Seq<Fml>) -> bool {
    if f.conn() is Not {
        has_column(cols, f.left().repr())
    } else {
        has_column(cols, f.left().repr()) && has_column(cols, f.right().repr())
    }
}

/// The representation whose column is missing, for a formula that fails the
/// dependency check: the left subformula's if absent, otherwise the right's.
pub open spec fn missing_dep(f: Fml, cols: Seq<Fml>) -> Seq<char> {
    if !has_column(cols, f.left().repr()) {
        f.left().repr()
    } else {
        f.right().repr()
    }
}

/// The table invariant over its column sequence: the first `n` columns are
/// the atoms, and every later column passes the dependency check against the
/// columns before it.
pub open spec fn cols_wf(cols: Seq<Fml>, n: nat) -> bool {
    n <= cols.len() && forall|k: int|
        n <= k < cols.len() ==> dep_ok(#[trigger] cols[k], cols.take(k))
}

/// The value a lookup by representation finds in a partially built row: the
/// value under the first column carrying that representation.
pub open spec fn lookup_value(cols: Seq<Fml>, row: Seq<TruthValue>, repr: Seq<char>) -> TruthValue {
    row[first_column_with(cols, repr)]
}

/// The value of a compound column on one row, computed from the values of
/// its subformulas' columns in the row built so far.
pub open spec fn cell_value(cols: Seq<Fml>, row: Seq<TruthValue>, f: Fml) -> TruthValue {
    if f.conn() is Not {
        eval_not(lookup_value(cols, row, f.left().repr()))
    } else {
        apply_connective_spec(
            lookup_value(cols, row, f.left().repr()),
            lookup_value(cols, row, f.right().repr()),
            f.conn(),
        )
    }
}

/// One row of the value grid, carried through the first `k` columns: the
/// atom valuation itself for `k <= n`, and each compound column's value
/// appended in column order after that.
pub open spec fn grid_row(cols: Seq<Fml>, n: nat, atom_row: Seq<TruthValue>, k: int) -> Seq<
    TruthValue,
>
    decreases k - n,
{
    if k <= n {
        atom_row
    } else {
        let prev = grid_row(cols, n, atom_row, k - 1);
        prev.push(cell_value(cols, prev, cols[k - 1]))
    }
}

/// The full value grid of a table with the given columns and `n` atoms: one
/// row per valuation, in enumeration order, each carried through every
/// column.
pub open spec fn table_grid(cols: Seq<Fml>, n: nat) -> Seq<Seq<TruthValue>> {
    Seq::new(valuations(n).len(), |i: int| grid_row(cols, n, valuations(n)[i], cols.len() as int))
}

/// The error `add_compound_formula` answers when a subformula of the given
/// formula is not yet a column of the table: it names the missing
/// representation.
#[derive(Debug)]
pub struct DependencyError {
    /// The representation of the subformula that is absent from the table.
    pub missing: String,
}

/// A truth table: an ordered list of atomic formulas (the first columns) and
/// an ordered list of compound formulas registered on top of them.
pub struct TruthTable {
    atoms: Vec<FormulaRef>,
    compound_formulas: Vec<FormulaRef>,
}

impl TruthTable {
    /// The abstract shapes of the atom columns, in column order.
    pub closed spec fn atoms_fml(self) -> Seq<Fml> {
        Seq::new(self.atoms@.len(), |i: int| self.atoms@[i]@)
    }

    /// The abstract shapes of the compound columns, in registration order.
    pub closed spec fn compounds_fml(self) -> Seq<Fml> {
        Seq::new(self.compound_formulas@.len(), |i: int| self.compound_formulas@[i]@)
    }

    /// All columns: the atoms first, then the compounds.
    pub open spec fn columns_fml(self) -> Seq<Fml> {
        self.atoms_fml() + self.compounds_fml()
    }

    /// The number of atom columns.
    pub open spec fn atom_count(self) -> nat {
        self.atoms_fml().len()
    }

    /// The table invariant: every compound column passed the dependency
    /// check against the columns present when it was registered.
    pub open spec fn wf(self) -> bool {
        cols_wf(self.columns_fml(), self.atom_count())
    }

    /// A fresh table whose columns are the given atoms, in order, with no
    /// compound columns yet.
    pub fn build_base_truth_table(atoms: Vec<&FormulaRef>) -> (t: TruthTable)
        ensures
            t.atoms_fml() == Seq::new(atoms@.len(), |i: int| atoms@[i]@),
            t.compounds_fml() == Seq::<Fml>::empty(),
            t.wf(),
    {
        let mut cloned_atoms: Vec<FormulaRef> = Vec::new();
        let mut i: usize = 0;
        while i < atoms.len()
            invariant
                i <= atoms.len(),
                cloned_atoms@.len() == i,
                forall|j: int| #![trigger cloned_atoms@[j]]
                    0 <= j < i ==> cloned_atoms@[j]@ == atoms@[j]@,
            decreases atoms.len() - i,
        {
            cloned_atoms.push(atoms[i].clone());
            i = i + 1;
        }
        let t = TruthTable { atoms: cloned_atoms, compound_formulas: Vec::new() };
        proof {
            assert(t.atoms_fml() =~= Seq::new(atoms@.len(), |i: int| atoms@[i]@));
            assert(t.compounds_fml() =~= Seq::<Fml>::empty());
        }
        t
    }

    fn columns_heads(&self) -> (r: Vec<FormulaRef>)
        ensures
            r@.len() == self.columns_fml().len(),
            forall|i: int| #![trigger r@[i]]
                0 <= i < r@.len() ==> r@[i]@ == self.columns_fml()[i],
    {
        let mut columns_refs: Vec<FormulaRef> = Vec::new();
        let mut i: usize = 0;
        while i < self.atoms.len()
            invariant
                i <= self.atoms.len(),
                columns_refs@.len() == i,
                forall|j: int| #![trigger columns_refs@[j]]
                    0 <= j < i ==> columns_refs@[j]@ == self.atoms_fml()[j],
            decreases self.atoms.len() - i,
        {
            columns_refs.push(self.atoms[i].clone());
            i = i + 1;
        }
        let atom_count = self.atoms.len();
        let mut i: usize = 0;
        while i < self.compound_formulas.len()
            invariant
                i <= self.compound_formulas.len(),
                atom_count == self.atoms@.len(),
                columns_refs@.len() == atom_count + i,
                forall|j: int| #![trigger columns_refs@[j]]
                    0 <= j < atom_count + i ==> columns_refs@[j]@ == self.columns_fml()[j],
            decreases self.compound_formulas.len() - i,
        {
            columns_refs.push(self.compound_formulas[i].clone());
            i = i + 1;
        }
        columns_refs
    }

    fn columns_heads_repr(&self) -> (r: Vec<String>)
        ensures
            r@.len() == self.columns_fml().len(),
            forall|i: int| #![trigger r@[i]]
                0 <= i < r@.len() ==> r@[i]@ == col_reprs(self.columns_fml())[i],
    {
        let columns_refs = self.columns_heads();
        let mut reprs: Vec<String> = Vec::new();
        let mut i: usize = 0;
        while i < columns_refs.len()
            invariant
                i <= columns_refs.len(),
                reprs@.len() == i,
                columns_refs@.len() == self.columns_fml().len(),
                forall|j: int| #![trigger columns_refs@[j]]
                    0 <= j < columns_refs@.len() ==> columns_refs@[j]@ == self.columns_fml()[j],
                forall|j: int| #![trigger reprs@[j]]
                    0 <= j < i ==> reprs@[j]@ == col_reprs(self.columns_fml())[j],
            decreases columns_refs.len() - i,
        {
            reprs.push(columns_refs[i].repr());
            i = i + 1;
        }
        reprs
    }

    /// Registers a compound formula as the next column. Fails, leaving the
    /// table unchanged, exactly when a subformula the formula's evaluation
    /// will look up is not already a column: the left subformula for a
    /// `Not`-rooted formula, either subformula otherwise. The error names
    /// the missing representation.
    pub fn add_compound_formula(&mut self, compound_formula: &FormulaRef) -> (r: Result<
        (),
        DependencyError,
    >)
        requires
            old(self).wf(),
        ensures
            final(self).wf(),
            final(self).atoms_fml() == old(self).atoms_fml(),
            dep_ok(compound_formula@, old(self).columns_fml()) ==> r is Ok
                && final(self).compounds_fml() == old(self).compounds_fml().push(
                    compound_formula@,
                ),
            !dep_ok(compound_formula@, old(self).columns_fml()) ==> r is Err
                && final(self).compounds_fml() == old(self).compounds_fml(),
            r matches Err(e) ==> e.missing@ == missing_dep(
                compound_formula@,
                old(self).columns_fml(),
            ),
    {
        let reprs = self.columns_heads_repr();
        let ghost cols = self.columns_fml();
        match compound_formula.main_connective() {
            Connective::Not => {
                let left_repr = compound_formula.left_subformula().repr();
                match find_column(&reprs, &left_repr) {
                    None => {
                        proof {
                            lemma_find_column_complete(
                                cols,
                                compound_formula@.left().repr(),
                                reprs@,
                            );
                        }
                        return Err(DependencyError { missing: left_repr });
                    },
                    Some(i) => {
                        proof {
                            assert(col_reprs(cols)[i as int] == compound_formula@.left().repr());
                            assert(has_column(cols, compound_formula@.left().repr()));
                        }
                    },
                }
            },
            _ => {
                let left_repr = compound_formula.left_subformula().repr();
                let right_repr = compound_formula.right_subformula().repr();
                match find_column(&reprs, &left_repr) {
                    None => {
                        proof {
                            lemma_find_column_complete(
                                cols,
                                compound_formula@.left().repr(),
                                reprs@,
                            );
                        }
                        return Err(DependencyError { missing: left_repr });
                    },
                    Some(i) => {
                        proof {
                            assert(col_reprs(cols)[i as int] == compound_formula@.left().repr());
                            assert(has_column(cols, compound_formula@.left().repr()));
                        }
                    },
                }
                match find_column(&reprs, &right_repr) {
                    None => {
                        proof {
                            lemma_find_column_complete(
                                cols,
                                compound_formula@.right().repr(),
                                reprs@,
                            );
                        }
                        return Err(DependencyError { missing: right_repr });
                    },
                    Some(i) => {
                        proof {
                            assert(col_reprs(cols)[i as int] == compound_formula@.right().repr());
                            assert(has_column(cols, compound_formula@.right().repr()));
                        }
                    },
                }
            },
        }
        let cloned_compound_formula = compound_formula.clone();
        self.compound_formulas.push(cloned_compound_formula);
        proof {
            assert(self.atoms_fml() =~= old(self).atoms_fml());
            assert(self.compounds_fml() =~= old(self).compounds_fml().push(compound_formula@));
            lemma_cols_wf_push(old(self).columns_fml(), old(self).atom_count(), compound_formula@);
            assert(self.columns_fml() =~= old(self).columns_fml().push(compound_formula@));
        }
        Ok(())
    }
}

/// A grid row carried through `k >= n` columns holds `k` values.
pub proof fn lemma_grid_row_len(cols: Seq<Fml>, n: nat, atom_row: Seq<TruthValue>, k: int)
    requires
        atom_row.len() == n,
        n <= k,
    ensures
        grid_row(cols, n, atom_row, k).len() == k,
    decreases k - n,
{
    if k > n {
        lemma_grid_row_len(cols, n, atom_row, k - 1);
    }
}

/// Carrying a row through further columns only appends: the values under the
/// first `k1` columns do not change.
pub proof fn lemma_grid_row_stable(
    cols: Seq<Fml>,
    n: nat,
    atom_row: Seq<TruthValue>,
    k1: int,
    k2: int,
    i: int,
)
    requires
        atom_row.len() == n,
        n <= k1 <= k2,
        0 <= i < k1,
    ensures
        grid_row(cols, n, atom_row, k2)[i] == grid_row(cols, n, atom_row, k1)[i],
    decreases k2 - k1,
{
    if k2 > k1 {
        lemma_grid_row_stable(cols, n, atom_row, k1, k2 - 1, i);
        lemma_grid_row_len(cols, n, atom_row, k2 - 1);
    }
}

/// When a scan finds the target at index `i` with no earlier match, `i` is
/// the first column carrying the target.
proof fn lemma_found_is_first(cols: Seq<Fml>, target: Seq<char>, reprs: Seq<String>, i: int)
    requires
        reprs.len() == cols.len(),
        forall|t: int| #![trigger reprs[t]] 0 <= t < reprs.len() ==> reprs[t]@ == col_reprs(
            cols,
        )[t],
        0 <= i < reprs.len(),
        reprs[i]@ == target,
        forall|j: int| 0 <= j < i ==> reprs[j]@ != target,
    ensures
        has_column(cols, target),
        first_column_with(cols, target) == i,
{
    assert(col_reprs(cols)[i] == target);
    assert(has_column(cols, target));
    lemma_first_column_with(cols, target);
    let fi = first_column_with(cols, target);
    if fi < i {
        assert(reprs[fi]@ == col_reprs(cols)[fi]);
    } else if fi > i {
        assert(cols[i].repr() != target);
    }
}

impl TruthTable {
    /// The full truth table: the column heads, and one value row per
    /// valuation of the atoms, in enumeration order, each row carrying one
    /// value per column in column order. There are exactly two-to-the-`n`
    /// rows for `n` atoms.
    #[verifier::rlimit(100)]
    pub fn build_final_truth_table(&self) -> (r: (Vec<FormulaRef>, Vec<Vec<TruthValue>>))
        requires
            self.wf(),
        ensures
            r.0@.len() == self.columns_fml().len(),
            forall|i: int| #![trigger r.0@[i]]
                0 <= i < r.0@.len() ==> r.0@[i]@ == self.columns_fml()[i],
            grid_of(r.1@) == table_grid(self.columns_fml(), self.atom_count()),
            r.1@.len() == pow2(self.atom_count()),
    {
        let ghost cols = self.columns_fml();
        let ghost n = self.atom_count();
        let amount_of_atoms = self.atoms.len();
        let columns_heads = self.columns_heads();
        let reprs = self.columns_heads_repr();
        let mut truth_values = TruthValue::generate_possible_options_aux(amount_of_atoms);
        proof {
            crate::truth_value::lemma_valuations_count(n);
            crate::truth_value::lemma_valuations_row_len(n);
        }
        let columns_len = columns_heads.len();
        let mut c: usize = 0;
        while c < self.compound_formulas.len()
            invariant
                self.wf(),
                c <= self.compound_formulas@.len(),
                amount_of_atoms == self.atoms@.len(),
                cols == self.columns_fml(),
                n == self.atom_count(),
                cols.len() == amount_of_atoms + self.compound_formulas@.len(),
                columns_len == cols.len(),
                columns_heads@.len() == cols.len(),
                forall|i: int| #![trigger columns_heads@[i]]
                    0 <= i < columns_heads@.len() ==> columns_heads@[i]@ == cols[i],
                reprs@.len() == cols.len(),
                forall|i: int| #![trigger reprs@[i]]
                    0 <= i < reprs@.len() ==> reprs@[i]@ == col_reprs(cols)[i],
                truth_values@.len() == valuations(n).len(),
                forall|i: int| #![trigger truth_values@[i]]
                    0 <= i < truth_values@.len() ==> truth_values@[i]@ == grid_row(
                        cols,
                        n,
                        valuations(n)[i],
                        amount_of_atoms + c,
                    ),
                forall|i: int| #![trigger valuations(n)[i]]
                    0 <= i < valuations(n).len() ==> valuations(n)[i].len() == n,
            decreases self.compound_formulas@.len() - c,
        {
            let ghost k = amount_of_atoms + c as int;
            proof {
                assert(dep_ok(cols[k], cols.take(k)));
            }
            let current = &columns_heads[amount_of_atoms + c];
            extend_rows_for_column(&mut truth_values, current, &reprs, Ghost(cols), Ghost(n), Ghost(k));
            c = c + 1;
        }
        proof {
            lemma_table_grid_complete(cols, n, truth_values@);
            crate::truth_value::lemma_valuations_count(n);
        }
        (columns_heads, truth_values)
    }
}

/// Rows that each carry one value per column, one row per valuation, make up
/// exactly the table's value grid.
proof fn lemma_table_grid_complete(cols: Seq<Fml>, n: nat, rows: Seq<Vec<TruthValue>>)
    requires
        rows.len() == valuations(n).len(),
        forall|i: int| #![trigger rows[i]]
            0 <= i < rows.len() ==> rows[i]@ == grid_row(cols, n, valuations(n)[i], cols.len() as int),
    ensures
        grid_of(rows) == table_grid(cols, n),
{
    assert(grid_of(rows) =~= table_grid(cols, n));
}

/// Appends to every row the value of the column at index `k`, looked up and
/// computed from the row's values under its subformulas' columns.
fn extend_rows_for_column(
    truth_values: &mut Vec<Vec<TruthValue>>,
    current: &FormulaRef,
    reprs: &Vec<String>,
    Ghost(cols): Ghost<Seq<Fml>>,
    Ghost(n): Ghost<nat>,
    Ghost(k): Ghost<int>,
)
    requires
        n <= k < cols.len(),
        current@ == cols[k],
        dep_ok(cols[k], cols.take(k)),
        reprs@.len() == cols.len(),
        forall|t: int| #![trigger reprs@[t]]
            0 <= t < reprs@.len() ==> reprs@[t]@ == col_reprs(cols)[t],
        old(truth_values)@.len() == valuations(n).len(),
        forall|i: int| #![trigger valuations(n)[i]]
            0 <= i < valuations(n).len() ==> valuations(n)[i].len() == n,
        forall|i: int| #![trigger old(truth_values)@[i]]
            0 <= i < old(truth_values)@.len() ==> old(truth_values)@[i]@ == grid_row(
                cols,
                n,
                valuations(n)[i],
                k,
            ),
    ensures
        final(truth_values)@.len() == valuations(n).len(),
        forall|i: int| #![trigger final(truth_values)@[i]]
            0 <= i < final(truth_values)@.len() ==> final(truth_values)@[i]@ == grid_row(
                cols,
                n,
                valuations(n)[i],
                k + 1,
            ),
{
    let current_main_connective = current.main_connective();
    match current_main_connective {
        Connective::Not => {
            let left_repr = current.left_subformula().repr();
            let left_col = resolve_column(reprs, &left_repr, Ghost(cols), Ghost(k));
            extend_rows_unary(truth_values, left_col, Ghost(cols), Ghost(n), Ghost(k));
        },
        _ => {
            let left_repr = current.left_subformula().repr();
            let right_repr = current.right_subformula().repr();
            let left_col = resolve_column(reprs, &left_repr, Ghost(cols), Ghost(k));
            let right_col = resolve_column(reprs, &right_repr, Ghost(cols), Ghost(k));
            extend_rows_binary(
                truth_values,
                left_col,
                right_col,
                current_main_connective,
                Ghost(cols),
                Ghost(n),
                Ghost(k),
            );
        },
    }
}

/// The index of the first column carrying the target representation, for a
/// target known to occur among the first `k` columns.
fn resolve_column(
    reprs: &Vec<String>,
    target: &String,
    Ghost(cols): Ghost<Seq<Fml>>,
    Ghost(k): Ghost<int>,
) -> (i: usize)
    requires
        reprs@.len() == cols.len(),
        forall|t: int| #![trigger reprs@[t]]
            0 <= t < reprs@.len() ==> reprs@[t]@ == col_reprs(cols)[t],
        0 <= k <= cols.len(),
        has_column(cols.take(k), target@),
    ensures
        i as int == first_column_with(cols, target@),
        (i as int) < k,
{
    proof {
        lemma_first_column_within(cols, target@, k);
    }
    match find_column(reprs, target) {
        Some(i) => {
            proof {
                lemma_found_is_first(cols, target@, reprs@, i as int);
            }
            i
        },
        None => {
            proof {
                lemma_find_column_complete(cols, target@, reprs@);
            }
            0
        },
    }
}

/// Appends to every row the value of the `Not`-rooted column at index `k`,
/// computed from the row's value under its left subformula's column.
fn extend_rows_unary(
    truth_values: &mut Vec<Vec<TruthValue>>,
    left_col: usize,
    Ghost(cols): Ghost<Seq<Fml>>,
    Ghost(n): Ghost<nat>,
    Ghost(k): Ghost<int>,
)
    requires
        n <= k < cols.len(),
        left_col < k,
        left_col as int == first_column_with(cols, cols[k].left().repr()),
        cols[k].conn() is Not,
        old(truth_values)@.len() == valuations(n).len(),
        forall|i: int| #![trigger valuations(n)[i]]
            0 <= i < valuations(n).len() ==> valuations(n)[i].len() == n,
        forall|i: int| #![trigger old(truth_values)@[i]]
            0 <= i < old(truth_values)@.len() ==> old(truth_values)@[i]@ == grid_row(
                cols,
                n,
                valuations(n)[i],
                k,
            ),
    ensures
        final(truth_values)@.len() == valuations(n).len(),
        forall|i: int| #![trigger final(truth_values)@[i]]
            0 <= i < final(truth_values)@.len() ==> final(truth_values)@[i]@ == grid_row(
                cols,
                n,
                valuations(n)[i],
                k + 1,
            ),
{
    let mut row_index: usize = 0;
    while row_index < truth_values.len()
        invariant
            row_index <= truth_values@.len(),
            truth_values@.len() == valuations(n).len(),
            n <= k < cols.len(),
            left_col < k,
            left_col as int == first_column_with(cols, cols[k].left().repr()),
            cols[k].conn() is Not,
            forall|i: int| #![trigger valuations(n)[i]]
                0 <= i < valuations(n).len() ==> valuations(n)[i].len() == n,
            forall|i: int| #![trigger truth_values@[i]]
                0 <= i < row_index ==> truth_values@[i]@ == grid_row(
                    cols,
                    n,
                    valuations(n)[i],
                    k + 1,
                ),
            forall|i: int| #![trigger truth_values@[i]]
                row_index <= i < truth_values@.len() ==> truth_values@[i]@ == grid_row(
                    cols,
                    n,
                    valuations(n)[i],
                    k,
                ),
        decreases truth_values@.len() - row_index,
    {
        proof {
            lemma_grid_row_len(cols, n, valuations(n)[row_index as int], k);
        }
        let left_val = truth_values[row_index][left_col];
        let value = Connective::not_rules(left_val);
        proof {
            let prev = grid_row(cols, n, valuations(n)[row_index as int], k);
            assert(value == cell_value(cols, prev, cols[k]));
        }
        truth_values[row_index].push(value);
        row_index = row_index + 1;
    }
}

/// Appends to every row the value of the binary column at index `k`,
/// computed from the row's values under its subformulas' columns.
fn extend_rows_binary(
    truth_values: &mut Vec<Vec<TruthValue>>,
    left_col: usize,
    right_col: usize,
    connective: Connective,
    Ghost(cols): Ghost<Seq<Fml>>,
    Ghost(n): Ghost<nat>,
    Ghost(k): Ghost<int>,
)
    requires
        n <= k < cols.len(),
        left_col < k,
        right_col < k,
        left_col as int == first_column_with(cols, cols[k].left().repr()),
        right_col as int == first_column_with(cols, cols[k].right().repr()),
        !(cols[k].conn() is Not),
        connective == cols[k].conn(),
        old(truth_values)@.len() == valuations(n).len(),
        forall|i: int| #![trigger valuations(n)[i]]
            0 <= i < valuations(n).len() ==> valuations(n)[i].len() == n,
        forall|i: int| #![trigger old(truth_values)@[i]]
            0 <= i < old(truth_values)@.len() ==> old(truth_values)@[i]@ == grid_row(
                cols,
                n,
                valuations(n)[i],
                k,
            ),
    ensures
        final(truth_values)@.len() == valuations(n).len(),
        forall|i: int| #![trigger final(truth_values)@[i]]
            0 <= i < final(truth_values)@.len() ==> final(truth_values)@[i]@ == grid_row(
                cols,
                n,
                valuations(n)[i],
                k + 1,
            ),
{
    let mut row_index: usize = 0;
    while row_index < truth_values.len()
        invariant
            row_index <= truth_values@.len(),
            truth_values@.len() == valuations(n).len(),
            n <= k < cols.len(),
            left_col < k,
            right_col < k,
            left_col as int == first_column_with(cols, cols[k].left().repr()),
            right_col as int == first_column_with(cols, cols[k].right().repr()),
            !(cols[k].conn() is Not),
            connective == cols[k].conn(),
            forall|i: int| #![trigger valuations(n)[i]]
                0 <= i < valuations(n).len() ==> valuations(n)[i].len() == n,
            forall|i: int| #![trigger truth_values@[i]]
                0 <= i < row_index ==> truth_values@[i]@ == grid_row(
                    cols,
                    n,
                    valuations(n)[i],
                    k + 1,
                ),
            forall|i: int| #![trigger truth_values@[i]]
                row_index <= i < truth_values@.len() ==> truth_values@[i]@ == grid_row(
                    cols,
                    n,
                    valuations(n)[i],
                    k,
                ),
        decreases truth_values@.len() - row_index,
    {
        proof {
            lemma_grid_row_len(cols, n, valuations(n)[row_index as int], k);
        }
        let left_val = truth_values[row_index][left_col];
        let right_val = truth_values[row_index][right_col];
        let value = Connective::apply_connective(left_val, right_val, connective);
        proof {
            let prev = grid_row(cols, n, valuations(n)[row_index as int], k);
            assert(value == cell_value(cols, prev, cols[k]));
        }
        truth_values[row_index].push(value);
        row_index = row_index + 1;
    }
}

/// Appending a column that passes the dependency check against all current
/// columns keeps the table invariant.
proof fn lemma_cols_wf_push(cols: Seq<Fml>, n: nat, f: Fml)
    requires
        cols_wf(cols, n),
        dep_ok(f, cols),
    ensures
        cols_wf(cols.push(f), n),
{
    let pushed = cols.push(f);
    assert forall|k: int| n <= k < pushed.len() implies dep_ok(#[trigger] pushed[k], pushed.take(k)) by {
        assert(pushed.take(k) =~= cols.take(k)) by {
            assert(forall|j: int| 0 <= j < k ==> pushed.take(k)[j] == cols[j]);
        }
        if k < cols.len() {
            assert(dep_ok(cols[k], cols.take(k)));
            assert(pushed[k] == cols[k]);
        } else {
            assert(pushed[k] == f);
            assert(cols.take(k) =~= cols);
        }
    }
}

/// When the given representations are the columns' representations, a failed
/// scan means no column carries the target, and a successful scan means the
/// found index is the first column carrying it.
proof fn lemma_find_column_complete(cols: Seq<Fml>, target: Seq<char>, reprs: Seq<String>)
    requires
        reprs.len() == cols.len(),
        forall|i: int| #![trigger reprs[i]] 0 <= i < reprs.len() ==> reprs[i]@ == col_reprs(cols)[i],
        forall|j: int| 0 <= j < reprs.len() ==> reprs[j]@ != target,
    ensures
        !has_column(cols, target),
{
    if has_column(cols, target) {
        let witness = choose|i: int|
            0 <= i < col_reprs(cols).len() && col_reprs(cols)[i] == target;
        assert(reprs[witness]@ == target);
    }
}

/// The index of the first representation equal to the target, scanning from
/// the front; `None` when no representation matches.
fn find_column(reprs: &Vec<String>, target: &String) -> (r: Option<usize>)
    ensures
        match r {
            Some(i) => i < reprs@.len() && reprs@[i as int]@ == target@ && (forall|j: int|
                0 <= j < i ==> reprs@[j]@ != target@),
            None => forall|j: int| 0 <= j < reprs@.len() ==> reprs@[j]@ != target@,
        },
{
    let mut i: usize = 0;
    while i < reprs.len()
        invariant
            i <= reprs.len(),
            forall|j: int| 0 <= j < i ==> reprs@[j]@ != target@,
        decreases reprs.len() - i,
    {
        let candidate: &String = &reprs[i];
        if candidate.eq(target) {
            return Some(i);
        }
        i = i + 1;
    }
    None
}

/// The tag of a truth value, centered under a header of the given width: the
/// tag stands at half the width, padded with spaces; an empty header gives an
/// empty cell.
pub open spec fn centered_cell(tag: char, width: nat) -> Seq<char> {
    if width == 0 {
        Seq::empty()
    } else {
        Seq::new(width + 1, |i: int| if i == width / 2 { tag } else { ' ' })
    }
}

/// The parts joined by the separator, in order.
pub open spec fn joined(parts: Seq<Seq<char>>, sep: Seq<char>) -> Seq<char>
    decreases parts.len(),
{
    if parts.len() == 0 {
        Seq::empty()
    } else if parts.len() == 1 {
        parts[0]
    } else {
        parts[0] + sep + joined(parts.drop_first(), sep)
    }
}

proof fn lemma_joined_push(parts: Seq<Seq<char>>, sep: Seq<char>, part: Seq<char>)
    ensures
        joined(parts.push(part), sep) == if parts.len() == 0 {
            part
        } else {
            joined(parts, sep) + sep + part
        },
    decreases parts.len(),
{
    if parts.len() == 0 {
        assert(parts.push(part)[0] == part);
    } else {
        assert(parts.push(part).drop_first() =~= parts.drop_first().push(part));
        lemma_joined_push(parts.drop_first(), sep, part);
        if parts.len() == 1 {
            assert(parts.push(part)[0] == parts[0]);
        } else {
            assert(parts[0] + sep + (joined(parts.drop_first(), sep) + sep + part) =~= (parts[0]
                + sep + joined(parts.drop_first(), sep)) + sep + part);
        }
    }
}

/// The lines, each terminated by a newline.
pub open spec fn lines_text(lines: Seq<Seq<char>>) -> Seq<char>
    decreases lines.len(),
{
    if lines.len() == 0 {
        Seq::empty()
    } else {
        lines[0] + seq!['\n'] + lines_text(lines.drop_first())
    }
}

proof fn lemma_lines_text_push(lines: Seq<Seq<char>>, line: Seq<char>)
    ensures
        lines_text(lines.push(line)) == lines_text(lines) + line + seq!['\n'],
    decreases lines.len(),
{
    let pushed = lines.push(line);
    if lines.len() == 0 {
        assert(pushed[0] == line);
        assert(pushed.drop_first() =~= Seq::<Seq<char>>::empty());
        assert(lines_text(pushed.drop_first()) =~= Seq::<char>::empty());
        assert(lines_text(pushed) =~= lines_text(lines) + line + seq!['\n']);
    } else {
        assert(pushed[0] == lines[0]);
        assert(pushed.drop_first() =~= lines.drop_first().push(line));
        lemma_lines_text_push(lines.drop_first(), line);
        assert(lines_text(pushed) == pushed[0] + seq!['\n'] + lines_text(pushed.drop_first()));
        assert(lines_text(lines) == lines[0] + seq!['\n'] + lines_text(lines.drop_first()));
        assert(lines_text(pushed) =~= lines_text(lines) + line + seq!['\n']);
    }
}

/// The separator between header cells.
pub open spec fn header_sep() -> Seq<char> {
    seq![' ', '|', ' ']
}

/// The separator between value cells.
pub open spec fn cell_sep() -> Seq<char> {
    seq!['|', ' ']
}

/// One rendered value row: each value's tag centered under its column's
/// header, the cells joined by the cell separator.
pub open spec fn row_text(row: Seq<TruthValue>, reprs: Seq<Seq<char>>) -> Seq<char> {
    joined(
        Seq::new(row.len(), |j: int| centered_cell(row[j].tag_spec(), reprs[j].len())),
        cell_sep(),
    )
}

/// The rendered lines of a table: the header line (the column
/// representations joined by the header separator), then one line per value
/// row of the grid.
pub open spec fn render_lines(cols: Seq<Fml>, n: nat) -> Seq<Seq<char>> {
    Seq::new(
        1 + table_grid(cols, n).len(),
        |i: int|
            if i == 0 {
                joined(col_reprs(cols), header_sep())
            } else {
                row_text(table_grid(cols, n)[i - 1], col_reprs(cols))
            },
    )
}

/// The full rendered text of a table: its lines, each terminated by a
/// newline.
pub open spec fn render_spec(cols: Seq<Fml>, n: nat) -> Seq<char> {
    lines_text(render_lines(cols, n))
}

/// The single letter that stands for the value in a rendered cell.
fn tag_text(val: TruthValue) -> (r: &'static str)
    ensures
        r@ == seq![val.tag_spec()],
{
    match val {
        TruthValue::T => {
            let r = "T";
            proof {
                reveal_strlit("T");
                assert(r@ =~= seq![val.tag_spec()]);
            }
            r
        },
        TruthValue::F => {
            let r = "F";
            proof {
                reveal_strlit("F");
                assert(r@ =~= seq![val.tag_spec()]);
            }
            r
        },
        TruthValue::Unassigned => {
            let r = "U";
            proof {
                reveal_strlit("U");
                assert(r@ =~= seq![val.tag_spec()]);
            }
            r
        },
    }
}

impl TruthTable {
    fn center_truth_value(val: TruthValue, reference: &str) -> (r: String)
        ensures
            r@ == centered_cell(val.tag_spec(), reference@.len()),
    {
        let ghost width = reference@.len();
        let ghost cell = centered_cell(val.tag_spec(), width);
        let mut centered_string = String::new();
        let reference_size = reference.unicode_len();
        let correct_value_position = reference_size / 2;
        let mut i: usize = 0;
        while i < reference_size
            invariant
                width == reference_size,
                cell == centered_cell(val.tag_spec(), width),
                correct_value_position == reference_size / 2,
                i <= reference_size,
                centered_string@.len() == i + if i > correct_value_position {
                    1int
                } else {
                    0int
                },
                forall|m: int|
                    0 <= m < centered_string@.len() ==> centered_string@[m] == cell[m],
            decreases reference_size - i,
        {
            proof {
                reveal_strlit(" ");
                assert(" "@ =~= seq![' ']);
            }
            if i == correct_value_position {
                centered_string.append(tag_text(val));
            }
            centered_string.append(" ");
            i = i + 1;
        }
        proof {
            if width > 0 {
                assert(width / 2 < width);
            }
            assert(centered_string@.len() == cell.len());
            assert(centered_string@ =~= cell);
        }
        centered_string
    }

    /// The rendered table: the header line of all column representations,
    /// then one line per value row, each value's tag centered under its
    /// column's header, every line terminated by a newline.
    #[verifier::rlimit(50)]
    pub fn render_final_truth_table(&self) -> (r: String)
        requires
            self.wf(),
        ensures
            r@ == render_spec(self.columns_fml(), self.atom_count()),
    {
        proof {
            reveal_strlit(" | ");
            reveal_strlit("| ");
            reveal_strlit("\n");
        }
        let ghost cols = self.columns_fml();
        let ghost n = self.atom_count();
        let ghost lines = render_lines(cols, n);
        let (_, truth_values) = self.build_final_truth_table();
        let columns_heads_repr = self.columns_heads_repr();
        let mut out = String::new();
        let mut j: usize = 0;
        while j < columns_heads_repr.len()
            invariant
                j <= columns_heads_repr@.len(),
                columns_heads_repr@.len() == cols.len(),
                forall|t: int| #![trigger columns_heads_repr@[t]]
                    0 <= t < columns_heads_repr@.len() ==> columns_heads_repr@[t]@ == col_reprs(
                        cols,
                    )[t],
                out@ == joined(col_reprs(cols).take(j as int), header_sep()),
            decreases columns_heads_repr@.len() - j,
        {
            proof {
                reveal_strlit(" | ");
                assert(" | "@ =~= header_sep());
            }
            if j > 0 {
                out.append(" | ");
            }
            out.append(columns_heads_repr[j].as_str());
            proof {
                lemma_joined_push(col_reprs(cols).take(j as int), header_sep(), col_reprs(cols)[j as int]);
                assert(col_reprs(cols).take(j + 1) =~= col_reprs(cols).take(j as int).push(
                    col_reprs(cols)[j as int],
                ));
            }
            j = j + 1;
        }
        proof {
            assert(col_reprs(cols).take(cols.len() as int) =~= col_reprs(cols));
            assert(lines[0] == joined(col_reprs(cols), header_sep()));
        }
        out.append("\n");
        proof {
            assert("\n"@ =~= seq!['\n']);
            assert(lines.take(1).drop_first() =~= Seq::<Seq<char>>::empty());
            assert(lines_text(lines.take(1).drop_first()) =~= Seq::<char>::empty());
            assert(lines_text(lines.take(1)) == lines.take(1)[0] + seq!['\n'] + lines_text(
                lines.take(1).drop_first(),
            ));
            assert(out@ =~= lines_text(lines.take(1)));
        }
        let mut row_index: usize = 0;
        while row_index < truth_values.len()
            invariant
                row_index <= truth_values@.len(),
                self.wf(),
                cols == self.columns_fml(),
                n == self.atom_count(),
                lines == render_lines(cols, n),
                columns_heads_repr@.len() == cols.len(),
                forall|t: int| #![trigger columns_heads_repr@[t]]
                    0 <= t < columns_heads_repr@.len() ==> columns_heads_repr@[t]@ == col_reprs(
                        cols,
                    )[t],
                grid_of(truth_values@) == table_grid(cols, n),
                truth_values@.len() == table_grid(cols, n).len(),
                lines.len() == 1 + truth_values@.len(),
                out@ == lines_text(lines.take(1 + row_index)),
            decreases truth_values@.len() - row_index,
        {
            let ghost row = table_grid(cols, n)[row_index as int];
            proof {
                assert(truth_values@[row_index as int]@ == grid_of(truth_values@)[row_index as int]);
                crate::truth_value::lemma_valuations_row_len(n);
                lemma_grid_row_len(cols, n, valuations(n)[row_index as int], cols.len() as int);
                assert(row.len() == cols.len());
            }
            let ghost cells = Seq::new(
                row.len(),
                |t: int| centered_cell(row[t].tag_spec(), col_reprs(cols)[t].len()),
            );
            let row_len = truth_values[row_index].len();
            let mut line = String::new();
            let mut t: usize = 0;
            while t < row_len
                invariant
                    t <= row_len,
                    row_len == row.len(),
                    row.len() == cols.len(),
                    row == truth_values@[row_index as int]@,
                    row_index < truth_values@.len(),
                    cells == Seq::new(
                        row.len(),
                        |t: int| centered_cell(row[t].tag_spec(), col_reprs(cols)[t].len()),
                    ),
                    columns_heads_repr@.len() == cols.len(),
                    forall|u: int| #![trigger columns_heads_repr@[u]]
                        0 <= u < columns_heads_repr@.len() ==> columns_heads_repr@[u]@
                            == col_reprs(cols)[u],
                    line@ == joined(cells.take(t as int), cell_sep()),
                decreases row_len - t,
            {
                proof {
                    reveal_strlit("| ");
                    assert("| "@ =~= cell_sep());
                }
                if t > 0 {
                    line.append("| ");
                }
                let cell = TruthTable::center_truth_value(
                    truth_values[row_index][t],
                    columns_heads_repr[t].as_str(),
                );
                line.append(cell.as_str());
                proof {
                    assert(cell@ == cells[t as int]);
                    lemma_joined_push(cells.take(t as int), cell_sep(), cells[t as int]);
                    assert(cells.take(t + 1) =~= cells.take(t as int).push(cells[t as int]));
                }
                t = t + 1;
            }
            proof {
                assert(cells.take(row.len() as int) =~= cells);
                assert(line@ == row_text(row, col_reprs(cols)));
                assert(lines[row_index + 1] == row_text(row, col_reprs(cols)));
            }
            out.append(line.as_str());
            out.append("\n");
            proof {
                reveal_strlit("\n");
                assert("\n"@ =~= seq!['\n']);
                lemma_lines_text_push(lines.take(1 + row_index), lines[row_index + 1]);
                assert(lines.take(1 + row_index).push(lines[row_index + 1]) =~= lines.take(
                    2 + row_index,
                ));
                assert(out@ =~= lines_text(lines.take(1 + row_index)) + lines[row_index + 1]
                    + seq!['\n']);
            }
            row_index = row_index + 1;
        }
        proof {
            assert(lines.take(lines.len() as int) =~= lines);
        }
        out
    }
}

/// Which atom columns a column's value rests on, transitively through the
/// lookups its evaluation makes: an atom column rests on itself; a compound
/// column rests on whatever the first columns carrying its subformulas'
/// representations rest on.
pub open spec fn depends_on(cols: Seq<Fml>, n: nat, k: int, j: int) -> bool
    decreases k,
{
    if k < n {
        k == j
    } else {
        let f = cols[k];
        if f.conn() is Not {
            let li = first_column_with(cols, f.left().repr());
            0 <= li < k && depends_on(cols, n, li, j)
        } else {
            let li = first_column_with(cols, f.left().repr());
            let ri = first_column_with(cols, f.right().repr());
            (0 <= li < k && depends_on(cols, n, li, j)) || (0 <= ri < k && depends_on(
                cols,
                n,
                ri,
                j,
            ))
        }
    }
}

/// The propagation law: in a value row computed for the given columns, if
/// the atom valuation leaves some atom `Unassigned`, then every column whose
/// value rests on that atom, directly or transitively, is `Unassigned` too.
pub proof fn lemma_unassigned_propagates(
    cols: Seq<Fml>,
    n: nat,
    atom_row: Seq<TruthValue>,
    k: int,
    j: int,
)
    requires
        atom_row.len() == n,
        0 <= j < n,
        0 <= k < cols.len(),
        n <= cols.len(),
        depends_on(cols, n, k, j),
        atom_row[j] == TruthValue::Unassigned,
    ensures
        grid_row(cols, n, atom_row, cols.len() as int)[k] == TruthValue::Unassigned,
    decreases k,
{
    let full_len = cols.len() as int;
    if k < n {
        lemma_grid_row_stable(cols, n, atom_row, n as int, full_len, k);
    } else {
        let f = cols[k];
        lemma_grid_row_stable(cols, n, atom_row, k + 1, full_len, k);
        lemma_grid_row_len(cols, n, atom_row, k);
        let prev = grid_row(cols, n, atom_row, k);
        assert(grid_row(cols, n, atom_row, k + 1)[k] == cell_value(cols, prev, f));
        if f.conn() is Not {
            let li = first_column_with(cols, f.left().repr());
            lemma_unassigned_propagates(cols, n, atom_row, li, j);
            lemma_grid_row_stable(cols, n, atom_row, k, full_len, li);
            assert(lookup_value(cols, prev, f.left().repr()) == TruthValue::Unassigned);
        } else {
            let li = first_column_with(cols, f.left().repr());
            let ri = first_column_with(cols, f.right().repr());
            if 0 <= li < k && depends_on(cols, n, li, j) {
                lemma_unassigned_propagates(cols, n, atom_row, li, j);
                lemma_grid_row_stable(cols, n, atom_row, k, full_len, li);
                assert(lookup_value(cols, prev, f.left().repr()) == TruthValue::Unassigned);
                crate::connective::lemma_unassigned_absorbs(
                    lookup_value(cols, prev, f.left().repr()),
                    lookup_value(cols, prev, f.right().repr()),
                    f.conn(),
                );
            } else {
                lemma_unassigned_propagates(cols, n, atom_row, ri, j);
                lemma_grid_row_stable(cols, n, atom_row, k, full_len, ri);
                assert(lookup_value(cols, prev, f.right().repr()) == TruthValue::Unassigned);
                crate::connective::lemma_unassigned_absorbs(
                    lookup_value(cols, prev, f.left().repr()),
                    lookup_value(cols, prev, f.right().repr()),
                    f.conn(),
                );
            }
        }
    }
}

} // verus!
