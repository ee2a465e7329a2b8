//! The shapes of the service's answers.
use vstd::prelude::*;

verus! {

/// The batch and heat lists offered for selection.
///
/// A line that could not be read contributes nothing to the lists; the
/// reason stands in `errors` under the line's key (`line_one`, `line_two`,
/// `pr_6`), one entry per key, in ascending key order.
#[derive(Debug, Clone)]
pub struct DataAscan {
    pub batch_number_kpc: Vec<String>,
    pub batch_number_6pr: Vec<String>,
    pub malting_for_kpc: Vec<String>,
    pub malting_for_6pr: Vec<String>,
    pub errors: Vec<(String, String)>,
}

impl Default for DataAscan {
    fn default() -> (r: DataAscan)
        ensures
            r.batch_number_kpc@.len() == 0,
            r.batch_number_6pr@.len() == 0,
            r.malting_for_kpc@.len() == 0,
            r.malting_for_6pr@.len() == 0,
            r.errors@.len() == 0,
    {
        DataAscan {
            batch_number_kpc: Vec::new(),
            batch_number_6pr: Vec::new(),
            malting_for_kpc: Vec::new(),
            malting_for_6pr: Vec::new(),
            errors: Vec::new(),
        }
    }
}

/// A request for wheels: the place, and a batch number or a heat number.
#[derive(Debug, Clone)]
pub struct DataFilter {
    pub place: String,
    pub batch_number: Option<String>,
    pub malting: Option<String>,
}

/// The wheels of one line, column by column: the `i`-th entry of every
/// column describes the same wheel.
#[derive(Debug, Clone)]
pub struct WheelLineData {
    pub hot_number: Vec<Option<String>>,
    pub malting_namber: Vec<Option<String>>,
    pub batch_number: Vec<Option<String>>,
    pub task_number: Vec<Option<String>>,
    pub path_img: Vec<Option<String>>,
    pub date_time: Vec<Option<String>>,
}

impl WheelLineData {
    /// Every column holds `n` entries.
    pub open spec fn has_wheels(&self, n: nat) -> bool {
        &&& self.hot_number@.len() == n
        &&& self.malting_namber@.len() == n
        &&& self.batch_number@.len() == n
        &&& self.task_number@.len() == n
        &&& self.path_img@.len() == n
        &&& self.date_time@.len() == n
    }
}

impl Default for WheelLineData {
    fn default() -> (r: WheelLineData)
        ensures
            r.has_wheels(0),
    {
        WheelLineData {
            hot_number: Vec::new(),
            malting_namber: Vec::new(),
            batch_number: Vec::new(),
            task_number: Vec::new(),
            path_img: Vec::new(),
            date_time: Vec::new(),
        }
    }
}

/// The outcome for one line:
/// - `data` without `error`: the line answered;
/// - `error` without `data`: the line could not be reached;
/// - both: the rows were read, but something else failed (the images).
#[derive(Debug, Clone)]
pub struct LineResult {
    pub data: Option<WheelLineData>,
    pub error: Option<String>,
}

impl Default for LineResult {
    fn default() -> (r: LineResult)
        ensures
            r.data is None,
            r.error is None,
    {
        LineResult { data: None, error: None }
    }
}

/// The answer to a wheel request; lines that do not belong to the chosen
/// place are `None`.
#[derive(Debug, Clone)]
pub struct WheelPlace {
    pub pr_6: Option<LineResult>,
    pub line_one: Option<LineResult>,
    pub line_two: Option<LineResult>,
}

impl Default for WheelPlace {
    fn default() -> (r: WheelPlace)
        ensures
            r.pr_6 is None,
            r.line_one is None,
            r.line_two is None,
    {
        WheelPlace { pr_6: None, line_one: None, line_two: None }
    }
}

} // verus!
