use vstd::prelude::*;

verus! {

/// Why a list of gradient stops was refused.
#[derive(Debug, Clone, PartialEq, Eq, Structural)]
pub enum ColorGradientError {
    TooFewStops { count: usize },
    StopsNotStrictlyAscending { index: usize },
}

/// Checks a gradient's stops given how many there are and, for each stop
/// after the first, whether its elevation is strictly above the previous
/// stop's (`ascending[i - 1]` for stop `i`). A gradient needs two stops; the
/// first stop that does not rise is the one reported.
pub fn check_stops(count: usize, ascending: &Vec<bool>) -> (result: Result<(), ColorGradientError>)
    requires
        count < 2 || ascending.len() + 1 == count,
    ensures
        match result {
            Ok(()) => count >= 2 && forall|i: int| 0 <= i < ascending.len() ==> ascending@[i],
            Err(ColorGradientError::TooFewStops { count: c }) => c == count && count < 2,
            Err(ColorGradientError::StopsNotStrictlyAscending { index }) => {
                &&& count >= 2
                &&& 1 <= index < count
                &&& !ascending@[index - 1]
                &&& forall|i: int| 0 <= i < index - 1 ==> ascending@[i]
            },
        },
{
    if count < 2 {
        return Err(ColorGradientError::TooFewStops { count });
    }
    let mut index: usize = 1;
    while index < count
        invariant
            1 <= index <= count,
            ascending.len() + 1 == count,
            forall|i: int| 0 <= i < index - 1 ==> ascending@[i],
        decreases count - index,
    {
        if !ascending[index - 1] {
            return Err(ColorGradientError::StopsNotStrictlyAscending { index });
        }
        index = index + 1;
    }
    Ok(())
}

} // verus!
