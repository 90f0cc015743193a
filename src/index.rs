//! Index bookkeeping on table axes: where a query value falls, which grid
//! points an interpolation stencil uses, and which state variable a table
//! column holds.

use vstd::prelude::*;

verus! {

/// Why a sequence of values cannot serve as an axis.
#[derive(Debug, Clone, Copy, PartialEq, Eq, Structural)]
pub enum RangeError {
    /// An axis needs at least two points.
    FewerThanTwoValues,
    /// The values are not strictly increasing.
    NotInIncreasingOrder,
    /// The values are not evenly spaced.
    NotLinear,
}

/// Where a query value falls on an axis: on grid point `i`, or strictly
/// between two neighbouring grid points.
#[derive(Debug, Clone, Copy, PartialEq, Eq, Structural)]
pub enum IdxLin {
    Exact(usize),
    Between(usize, usize),
}

impl IdxLin {
    /// The indices refer to points of an axis of `n_values` points, and a
    /// bracket is made of two neighbours.
    pub open spec fn is_within(self, n_values: nat) -> bool {
        match self {
            IdxLin::Exact(i) => i < n_values,
            IdxLin::Between(l, r) => r == l + 1 && r < n_values,
        }
    }

    /// The half-open run of grid points that interpolating at this location
    /// reads: the point itself, or both neighbours.
    pub fn window(&self, n_values: usize) -> (r: (usize, usize))
        requires
            self.is_within(n_values as nat),
        ensures
            r.0 < r.1 <= n_values,
            match *self {
                IdxLin::Exact(i) => r == (i, (i + 1) as usize),
                IdxLin::Between(l, rr) => r == (l, (rr + 1) as usize),
            },
    {
        match *self {
            IdxLin::Exact(i) => (i, i + 1),
            IdxLin::Between(l, r) => (l, r + 1),
        }
    }

    /// The same location expressed relative to the start of its window.
    pub fn rebased(&self) -> (r: IdxLin)
        ensures
            match *self {
                IdxLin::Exact(_) => r == IdxLin::Exact(0),
                IdxLin::Between(_, _) => r == IdxLin::Between(0, 1),
            },
            r.is_within(2),
    {
        match *self {
            IdxLin::Exact(_) => IdxLin::Exact(0),
            IdxLin::Between(_, _) => IdxLin::Between(0, 1),
        }
    }
}

/// Start of the four-point window `[i - 1, i + 2]` of a centered cubic
/// spline around the grid interval that starts at `lower`, on an axis of
/// `n_values` points; `None` when the window does not fit on the axis.
pub fn spline_window_start(lower: usize, n_values: usize) -> (r: Option<usize>)
    ensures
        r == (if 1 <= lower && lower + 3 <= n_values {
            Some((lower - 1) as usize)
        } else {
            None::<usize>
        }),
{
    if 1 <= lower && lower < n_values && n_values - lower >= 3 {
        Some(lower - 1)
    } else {
        None
    }
}

/// Number of `true` entries of `s`.
pub open spec fn count_true(s: Seq<bool>) -> nat
    decreases s.len(),
{
    if s.len() == 0 {
        0
    } else {
        count_true(s.drop_last()) + if s.last() {
            1nat
        } else {
            0nat
        }
    }
}

/// Given which points of an axis lie inside another axis' bounds, the first
/// such point and how many there are, when there are at least two.
pub fn subrange_span(inside: &[bool]) -> (r: Option<(usize, usize)>)
    ensures
        r is Some <==> count_true(inside@) >= 2,
        r matches Some((first, n)) ==> {
            &&& first < inside@.len()
            &&& inside@[first as int]
            &&& forall|j: int| 0 <= j < first ==> !inside@[j]
            &&& n == count_true(inside@)
        },
{
    let mut first: Option<usize> = None;
    let mut n: usize = 0;
    let mut i: usize = 0;
    while i < inside.len()
        invariant
            i <= inside@.len(),
            n == count_true(inside@.subrange(0, i as int)),
            n <= i,
            first is None <==> n == 0,
            first matches Some(f) ==> {
                &&& f < i
                &&& inside@[f as int]
                &&& forall|j: int| 0 <= j < f ==> !inside@[j]
            },
            first is None ==> forall|j: int| 0 <= j < i ==> !inside@[j],
        decreases inside@.len() - i,
    {
        proof {
            assert(inside@.subrange(0, i + 1).drop_last() =~= inside@.subrange(0, i as int));
        }
        if inside[i] {
            if first.is_none() {
                first = Some(i);
            }
            n = n + 1;
        }
        i = i + 1;
    }
    proof {
        assert(inside@.subrange(0, inside@.len() as int) =~= inside@);
    }
    match first {
        Some(f) => if n >= 2 {
            Some((f, n))
        } else {
            None
        },
        None => None,
    }
}

/// Takes out of `items` the two entries at `left` and `right`, in that order,
/// consuming the collection.
pub fn take_pair<T>(items: Vec<T>, left: usize, right: usize) -> (r: (T, T))
    requires
        left < right < items@.len(),
    ensures
        r == (items@[left as int], items@[right as int]),
{
    let mut items = items;
    let r = items.swap_remove(right);
    let l = items.swap_remove(left);
    (l, r)
}

/// Takes out of `items` the entry at `i`, consuming the collection.
pub fn take_one<T>(items: Vec<T>, i: usize) -> (r: T)
    requires
        i < items@.len(),
    ensures
        r == items@[i as int],
{
    let mut items = items;
    items.swap_remove(i)
}

/// Number of state variables tabulated at each point of an
/// equation-of-state grid.
pub const N_STATE_VARS: usize = 12;

/// A quantity tabulated in the equation-of-state tables.
#[derive(Debug, Clone, Copy, PartialEq, Eq, Structural)]
pub enum StateVar {
    LogDensity,
    LogPressure,
    LogPgas,
    LogTemperature,
    DPresDDensEcst,
    DPresDEnerDcst,
    DTempDDensEcst,
    DTempDEnerDcst,
    LogEntropy,
    DTempDPresScst,
    Gamma1,
    Gamma,
}

impl StateVar {
    /// Column of the variable along the innermost table axis.
    pub open spec fn column(self) -> nat {
        match self {
            StateVar::LogDensity => 0,
            StateVar::LogPressure => 1,
            StateVar::LogPgas => 2,
            StateVar::LogTemperature => 3,
            StateVar::DPresDDensEcst => 4,
            StateVar::DPresDEnerDcst => 5,
            StateVar::DTempDDensEcst => 6,
            StateVar::DTempDEnerDcst => 7,
            StateVar::LogEntropy => 8,
            StateVar::DTempDPresScst => 9,
            StateVar::Gamma1 => 10,
            StateVar::Gamma => 11,
        }
    }

    /// The column holding this variable.
    pub fn index(self) -> (r: usize)
        ensures
            r == self.column(),
            r < N_STATE_VARS,
    {
        match self {
            StateVar::LogDensity => 0,
            StateVar::LogPressure => 1,
            StateVar::LogPgas => 2,
            StateVar::LogTemperature => 3,
            StateVar::DPresDDensEcst => 4,
            StateVar::DPresDEnerDcst => 5,
            StateVar::DTempDDensEcst => 6,
            StateVar::DTempDEnerDcst => 7,
            StateVar::LogEntropy => 8,
            StateVar::DTempDPresScst => 9,
            StateVar::Gamma1 => 10,
            StateVar::Gamma => 11,
        }
    }

    /// The variable held in column `i`, if any.
    pub fn from_index(i: usize) -> (r: Option<StateVar>)
        ensures
            r matches Some(v) ==> v.column() == i,
            r is Some <==> i < N_STATE_VARS,
    {
        match i {
            0 => Some(StateVar::LogDensity),
            1 => Some(StateVar::LogPressure),
            2 => Some(StateVar::LogPgas),
            3 => Some(StateVar::LogTemperature),
            4 => Some(StateVar::DPresDDensEcst),
            5 => Some(StateVar::DPresDEnerDcst),
            6 => Some(StateVar::DTempDDensEcst),
            7 => Some(StateVar::DTempDEnerDcst),
            8 => Some(StateVar::LogEntropy),
            9 => Some(StateVar::DTempDPresScst),
            10 => Some(StateVar::Gamma1),
            11 => Some(StateVar::Gamma),
            _ => None,
        }
    }
}

/// Each variable has its own column, below the number of variables: two
/// variables never share a column.
pub proof fn lemma_columns_distinct(a: StateVar, b: StateVar)
    ensures
        a.column() < N_STATE_VARS,
        a.column() == b.column() ==> a == b,
{
}

} // verus!
