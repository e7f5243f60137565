//! The three-valued logic domain: true, false, and unassigned.

use vstd::prelude::*;
use vstd::arithmetic::power2::pow2;

verus! {

/// A truth value of the three-valued logic: `T`, `F`, or `Unassigned`.
#[derive(Clone, Copy, Debug, PartialEq, Eq, Structural)]
pub enum TruthValue {
    T,
    F,
    Unassigned,
}

impl TruthValue {
    /// Whether the value is defined, i.e. `T` or `F`.
    pub open spec fn is_defined(self) -> bool {
        self != TruthValue::Unassigned
    }

    /// The printable name of the value.
    pub open spec fn text_spec(self) -> Seq<char> {
        match self {
            TruthValue::T => seq!['T'],
            TruthValue::F => seq!['F'],
            TruthValue::Unassigned => seq![
                'U', 'n', 'a', 's', 's', 'i', 'g', 'n', 'e', 'd',
            ],
        }
    }

    /// The single letter that stands for the value in a rendered table.
    pub open spec fn tag_spec(self) -> char {
        match self {
            TruthValue::T => 'T',
            TruthValue::F => 'F',
            TruthValue::Unassigned => 'U',
        }
    }

    /// The printable name of the value, as text.
    pub fn text(&self) -> (r: &'static str)
        ensures
            r@ == self.text_spec(),
    {
        match self {
            TruthValue::T => {
                let r = "T";
                proof {
                    reveal_strlit("T");
                    assert(r@ =~= self.text_spec());
                }
                r
            },
            TruthValue::F => {
                let r = "F";
                proof {
                    reveal_strlit("F");
                    assert(r@ =~= self.text_spec());
                }
                r
            },
            TruthValue::Unassigned => {
                let r = "Unassigned";
                proof {
                    reveal_strlit("Unassigned");
                    assert(r@ =~= self.text_spec());
                }
                r
            },
        }
    }
}

/// The sequence of all valuations of `n` atoms, in the order the table
/// enumerates them: one empty row for zero atoms, and for each further atom
/// every existing row is replaced by two rows, one ending in `T` and one
/// ending in `F`.
pub open spec fn valuations(n: nat) -> Seq<Seq<TruthValue>>
    decreases n,
{
    if n == 0 {
        seq![Seq::<TruthValue>::empty()]
    } else {
        doubled_rows(valuations((n - 1) as nat))
    }
}

/// Each row of `rows`, replaced by the row with `T` appended followed by the
/// row with `F` appended.
pub open spec fn doubled_rows(rows: Seq<Seq<TruthValue>>) -> Seq<Seq<TruthValue>> {
    Seq::new(
        rows.len() * 2,
        |i: int|
            if i % 2 == 0 {
                rows[i / 2].push(TruthValue::T)
            } else {
                rows[i / 2].push(TruthValue::F)
            },
    )
}

/// The rows of a value grid, as sequences of truth values.
pub open spec fn grid_of(rows: Seq<Vec<TruthValue>>) -> Seq<Seq<TruthValue>> {
    Seq::new(rows.len(), |i: int| rows[i]@)
}

/// There are exactly two-to-the-`n` valuations of `n` atoms; with zero atoms
/// there is exactly one.
pub proof fn lemma_valuations_count(n: nat)
    ensures
        valuations(n).len() == pow2(n),
    decreases n,
{
    if n == 0 {
        vstd::arithmetic::power2::lemma2_to64();
    } else {
        vstd::arithmetic::power2::lemma_pow2_unfold(n);
        lemma_valuations_count((n - 1) as nat);
    }
}

/// Every valuation of `n` atoms assigns a value to exactly the `n` atoms.
pub proof fn lemma_valuations_row_len(n: nat)
    ensures
        forall|i: int| #![trigger valuations(n)[i]]
            0 <= i < valuations(n).len() ==> valuations(n)[i].len() == n,
    decreases n,
{
    if n > 0 {
        lemma_valuations_row_len((n - 1) as nat);
        let prev = valuations((n - 1) as nat);
        let cur = valuations(n);
        assert forall|i: int| #![trigger cur[i]] 0 <= i < cur.len() implies cur[i].len() == n by {
            let half = i / 2;
            assert(0 <= half < prev.len());
            assert(prev[half].len() == n - 1);
        }
    }
}

/// Every value a valuation assigns is defined: `T` or `F`, never
/// `Unassigned`.
pub proof fn lemma_valuations_defined(n: nat)
    ensures
        forall|i: int, j: int| #![trigger valuations(n)[i][j]]
            0 <= i < valuations(n).len() && 0 <= j < valuations(n)[i].len()
                ==> valuations(n)[i][j].is_defined(),
    decreases n,
{
    if n > 0 {
        lemma_valuations_defined((n - 1) as nat);
        lemma_valuations_row_len((n - 1) as nat);
        lemma_valuations_row_len(n);
        let prev = valuations((n - 1) as nat);
        let cur = valuations(n);
        assert forall|i: int, j: int| #![trigger cur[i][j]]
            0 <= i < cur.len() && 0 <= j < cur[i].len() implies cur[i][j].is_defined() by {
            let half = i / 2;
            assert(0 <= half < prev.len());
            assert(prev[half].len() == n - 1);
            if i % 2 == 0 {
                assert(cur[i] == prev[half].push(TruthValue::T));
            } else {
                assert(cur[i] == prev[half].push(TruthValue::F));
            }
            if j < n - 1 {
                assert(cur[i][j] == prev[half][j]);
            }
        }
    }
}

impl TruthValue {
    /// All valuations of `number_of_formulas` atoms, as rows of truth values,
    /// in enumeration order.
    pub fn generate_possible_options_aux(number_of_formulas: usize) -> (r: Vec<Vec<TruthValue>>)
        ensures
            grid_of(r@) == valuations(number_of_formulas as nat),
            r@.len() == valuations(number_of_formulas as nat).len(),
            forall|i: int| #![trigger r@[i]]
                0 <= i < r@.len() ==> r@[i]@ == valuations(number_of_formulas as nat)[i],
    {
        let mut results_vector: Vec<Vec<TruthValue>> = Vec::new();
        results_vector.push(Vec::new());
        assert(grid_of(results_vector@) =~= valuations(0));
        let mut done: usize = 0;
        while done < number_of_formulas
            invariant
                done <= number_of_formulas,
                grid_of(results_vector@) == valuations(done as nat),
            decreases number_of_formulas - done,
        {
            let mut added_combinations_vector: Vec<Vec<TruthValue>> = Vec::new();
            let mut path_index: usize = 0;
            while path_index < results_vector.len()
                invariant
                    path_index <= results_vector.len(),
                    added_combinations_vector@.len() == 2 * path_index,
                    forall|i: int| #![trigger added_combinations_vector@[i]]
                        0 <= i < 2 * path_index ==> added_combinations_vector@[i]@
                            == doubled_rows(grid_of(results_vector@))[i],
                decreases results_vector.len() - path_index,
            {
                let mut with_true: Vec<TruthValue> = clone_row(&results_vector[path_index]);
                with_true.push(TruthValue::T);
                added_combinations_vector.push(with_true);
                let mut with_false: Vec<TruthValue> = clone_row(&results_vector[path_index]);
                with_false.push(TruthValue::F);
                added_combinations_vector.push(with_false);
                path_index = path_index + 1;
            }
            results_vector = added_combinations_vector;
            done = done + 1;
            assert(grid_of(results_vector@) =~= valuations(done as nat));
        }
        proof {
            assert forall|i: int| 0 <= i < results_vector@.len() implies #[trigger] results_vector@[i]@
                == valuations(number_of_formulas as nat)[i] by {
                assert(results_vector@[i]@ == grid_of(results_vector@)[i]);
            }
        }
        results_vector
    }
}

/// A copy of a row of truth values.
fn clone_row(row: &Vec<TruthValue>) -> (r: Vec<TruthValue>)
    ensures
        r@ == row@,
{
    let mut r: Vec<TruthValue> = Vec::new();
    let mut i: usize = 0;
    while i < row.len()
        invariant
            i <= row.len(),
            r@ == row@.take(i as int),
        decreases row.len() - i,
    {
        r.push(row[i]);
        i = i + 1;
        assert(r@ =~= row@.take(i as int));
    }
    assert(r@ =~= row@);
    r
}

} // verus!
