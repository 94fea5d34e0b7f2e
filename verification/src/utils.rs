use vstd::prelude::*;

verus! {

/// Mathematical model of a `DirData`: the three tallies as unbounded integers.
pub ghost struct SummaryModel {
    pub size: int,
    pub completed: int,
    pub error: int,
}

/// Totals for one directory walk or for a whole run: bytes seen,
/// entries handled successfully, entries that failed.
#[derive(Copy, Clone, PartialEq, Eq, Structural, Debug)]
pub struct DirData {
    pub size: u64,
    pub completed: u64,
    pub error: u64,
}

impl View for DirData {
    type V = SummaryModel;

    open spec fn view(&self) -> SummaryModel {
        SummaryModel { size: self.size as int, completed: self.completed as int, error: self.error as int }
    }
}

impl DirData {
    pub fn from(size: u64, completed: u64, error: u64) -> (r: Self)
        ensures
            r.size == size && r.completed == completed && r.error == error,
    {
        Self { size, completed, error }
    }

    /// Component-wise accumulation of another walk's totals into this one.
    pub fn add_assign(&mut self, other: DirData)
        requires
            old(self).size + other.size <= u64::MAX,
            old(self).completed + other.completed <= u64::MAX,
            old(self).error + other.error <= u64::MAX,
        ensures
            final(self).size == old(self).size + other.size,
            final(self).completed == old(self).completed + other.completed,
            final(self).error == old(self).error + other.error,
    {
        *self = Self {
            size: self.size + other.size,
            completed: self.completed + other.completed,
            error: self.error + other.error,
        };
    }
}

/// A per-entry failure reason, carried as plain text.
#[derive(Debug)]
pub struct AppError {
    pub msg: String,
}

impl View for AppError {
    type V = Seq<char>;

    open spec fn view(&self) -> Seq<char> {
        self.msg@
    }
}

impl AppError {
    pub fn new(msg: String) -> (r: Self)
        ensures
            r@ == msg@,
    {
        Self { msg }
    }

    pub fn message(&self) -> (r: String)
        ensures
            r@ == self@,
    {
        self.msg.clone()
    }
}

impl PartialEq for AppError {
    fn eq(&self, other: &AppError) -> (r: bool) {
        self.msg == other.msg
    }
}

impl vstd::std_specs::cmp::PartialEqSpecImpl for AppError {
    open spec fn obeys_eq_spec() -> bool {
        true
    }

    open spec fn eq_spec(&self, other: &AppError) -> bool {
        self.msg@ == other.msg@
    }
}

/// The error that classification gives a directory or a symbolic link:
/// such entries are skipped, never counted.
#[allow(non_snake_case)]
pub fn SubDirError() -> (r: AppError)
    ensures
        r@ == "is subdirectory or symlink"@,
{
    AppError { msg: String::from_str("is subdirectory or symlink") }
}

} // verus!
