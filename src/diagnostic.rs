//! Errors that the Calyx compiler reports on a saved file.

use vstd::prelude::*;

verus! {

/// One error of the compiler: the file, the byte span and the message.
#[derive(Clone, Debug, PartialEq, Eq)]
pub struct CalyxError {
    pub file_name: String,
    pub pos_start: usize,
    pub pos_end: usize,
    pub msg: String,
}

} // verus!
