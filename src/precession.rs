//! Parameters of the precession models used for Pluto, and where each
//! parameter's polynomial coefficients sit in a model's table. Each model
//! tabulates, for every parameter in declaration order, one row of
//! coefficients of increasing powers of time.
use vstd::prelude::*;

verus! {

/// Number of precession parameters in each model's table.
pub const PARAMS: usize = 12;

/// A precession parameter (a row of a model's table).
#[derive(Debug, Clone, Copy, PartialEq, Eq, Structural)]
pub enum PlutoParam {
    Pfi,
    Pw,
    PP,
    PQ,
    PE,
    Px,
    Ppi,
    PII,
    Pp,
    Pth,
    PZ,
    Pz,
}

/// A precession model (a table of coefficients).
#[derive(Debug, Clone, Copy, PartialEq, Eq, Structural)]
pub enum PlutoModel {
    IAU1976,
    IAU2000,
    P03,
}

impl PlutoParam {
    /// The row of the parameter: its position in declaration order.
    pub open spec fn row(self) -> int {
        match self {
            PlutoParam::Pfi => 0,
            PlutoParam::Pw => 1,
            PlutoParam::PP => 2,
            PlutoParam::PQ => 3,
            PlutoParam::PE => 4,
            PlutoParam::Px => 5,
            PlutoParam::Ppi => 6,
            PlutoParam::PII => 7,
            PlutoParam::Pp => 8,
            PlutoParam::Pth => 9,
            PlutoParam::PZ => 10,
            PlutoParam::Pz => 11,
        }
    }

    /// The row of the parameter in a model's table.
    pub fn index(&self) -> (r: usize)
        ensures
            r == self.row(),
            r < PARAMS,
    {
        match self {
            PlutoParam::Pfi => 0,
            PlutoParam::Pw => 1,
            PlutoParam::PP => 2,
            PlutoParam::PQ => 3,
            PlutoParam::PE => 4,
            PlutoParam::Px => 5,
            PlutoParam::Ppi => 6,
            PlutoParam::PII => 7,
            PlutoParam::Pp => 8,
            PlutoParam::Pth => 9,
            PlutoParam::PZ => 10,
            PlutoParam::Pz => 11,
        }
    }
}

impl PlutoModel {
    /// Coefficients per row: four for IAU 1976, six for the later models.
    pub open spec fn row_len(self) -> int {
        match self {
            PlutoModel::IAU1976 => 4,
            _ => 6,
        }
    }

    /// The number of coefficients per row of the model's table.
    pub fn terms(&self) -> (r: usize)
        ensures
            r == self.row_len(),
    {
        match self {
            PlutoModel::IAU1976 => 4,
            _ => 6,
        }
    }
}

/// The positions `[start, end)` of the coefficients of parameter `sc` in
/// the table of `model`, lowest power first.
pub fn coefficient_span(sc: PlutoParam, model: PlutoModel) -> (r: (usize, usize))
    ensures
        r.0 == sc.row() * model.row_len(),
        r.1 == r.0 + model.row_len(),
        r.1 <= PARAMS * model.row_len(),
{
    let n: usize = model.terms();
    let start: usize = sc.index() * n;
    assert(start + n <= PARAMS * n) by (nonlinear_arith)
        requires
            start == sc.row() * n,
            0 <= sc.row() < PARAMS,
    ;
    (start, start + n)
}

} // verus!
