use vstd::prelude::*;
use crate::constants::SBI_SUCCESS;

verus! {

/// What an SBI call hands back: an error code and a value.
#[derive(Clone, Copy, Debug)]
pub struct Sbiret {
    pub error: i64,
    pub value: i64,
}

impl Sbiret {
    /// The call's value when the firmware reports success, its error code otherwise.
    pub fn into_result(&self) -> (r: Result<i64, i64>)
        ensures
            r == if self.error == SBI_SUCCESS {
                Ok::<i64, i64>(self.value)
            } else {
                Err::<i64, i64>(self.error)
            },
    {
        if self.error == 0 {
            Ok(self.value)
        } else {
            Err(self.error)
        }
    }
}

} // verus!
