//! The entry trampoline and the contract that the result of `main` meets.

use vstd::prelude::*;

verus! {

/// What the result of a program's entry function must offer: a conversion
/// into the exit status handed to the platform.
pub trait Termination: Sized {
    /// The exit status that this result stands for.
    spec fn exit_status(&self) -> i32;

    /// Converts the result into its exit status.
    fn report(self) -> (r: i32)
        ensures
            r == self.exit_status(),
    ;
}

/// The unit result means success.
impl Termination for () {
    open spec fn exit_status(&self) -> i32 {
        0
    }

    fn report(self) -> (r: i32) {
        0
    }
}

/// `r` is an exit status that `start` may give for `main`: the one of a
/// value that `main` may return.
pub open spec fn started<T: Termination, F: FnOnce() -> T>(main: F, r: i32) -> bool {
    exists|t: T| call_ensures(main, (), t) && r == t.exit_status()
}

/// The entry trampoline: calls `main` once and reports its result as the
/// exit status. The argument count and vector come from the platform's
/// startup code and are not read.
pub fn start<T: Termination, F: FnOnce() -> T>(main: F, _argc: isize, _argv: usize) -> (r: i32)
    requires
        call_requires(main, ()),
    ensures
        started(main, r),
{
    main().report()
}

/// An entry function that returns the unit result gives exit status 0.
pub proof fn lemma_unit_entry_exits_zero<F: FnOnce() -> ()>(main: F, r: i32)
    requires
        started::<(), F>(main, r),
    ensures
        r == 0,
{
}

} // verus!
