//! The driver: reads how many cases there are and handles them one by one.

use crate::scanner::{buffered_after_read, read_spec, unread_after_read, ScanError, Scanner};
use crate::source::LineSource;
use vstd::prelude::*;

verus! {

/// Handles one case. This is the place for the solution of a problem; as
/// it stands it reads nothing and writes nothing.
pub fn solve<R: LineSource>(scan: &mut Scanner<R>, out: &mut Vec<u8>) -> (r: Result<(), ScanError>)
    ensures
        r is Ok,
        *final(scan) == *old(scan),
        *final(out) == *old(out),
{
    Ok(())
}

/// The error that `r` holds, if it holds one.
pub open spec fn failure(r: Result<(), ScanError>) -> Option<ScanError> {
    match r {
        Ok(_) => None,
        Err(e) => Some(e),
    }
}

/// A property of the state of a run: of the number of cases handled so
/// far, the tokens buffered in the scanner, the text that its source has
/// not given yet, the output written, and the error of the case handled
/// last, if it failed.
pub type Progress = spec_fn(int, Seq<Seq<char>>, Seq<char>, Seq<u8>, Option<ScanError>) -> bool;

/// Reads the number of cases, then has `handler` handle that many cases, one
/// after the other, on the same scanner and the same output. Stops at the
/// first case that fails, and fails as it did.
///
/// Where the number of cases cannot be read, the run fails in the way the
/// read did, and `handler` is not called; where the number is zero, the run
/// succeeds, and `handler` is not called either.
///
/// Where the number can be read, the state at the end is one that the cases
/// lead to. Take any property that holds once the number is read, with no
/// case handled, and that `handler` carries on: from every state in which
/// fewer cases are handled than there are, and none has failed, to the
/// state that it leaves, with one more case handled. That property holds at
/// the end, and at the end either all cases are handled or the one handled
/// last has failed.
pub fn run<R: LineSource, F: Fn(&mut Scanner<R>, &mut Vec<u8>) -> Result<(), ScanError>>(
    scan: &mut Scanner<R>,
    out: &mut Vec<u8>,
    handler: F,
) -> (r: Result<(), ScanError>)
    requires
        forall|s: &mut Scanner<R>, o: &mut Vec<u8>| call_requires(handler, (s, o)),
    ensures
        read_spec::<usize>(old(scan).tokens()) matches Err(e) ==> {
            &&& r == Err::<(), ScanError>(e)
            &&& final(scan).buffered() == buffered_after_read(
                old(scan).buffered(),
                old(scan).unread(),
            )
            &&& final(scan).unread() == unread_after_read(old(scan).buffered(), old(scan).unread())
            &&& final(out)@ == old(out)@
        },
        read_spec::<usize>(old(scan).tokens()) == Ok::<usize, ScanError>(0) ==> {
            &&& r is Ok
            &&& final(scan).buffered() == buffered_after_read(
                old(scan).buffered(),
                old(scan).unread(),
            )
            &&& final(scan).unread() == unread_after_read(old(scan).buffered(), old(scan).unread())
            &&& final(out)@ == old(out)@
        },
        read_spec::<usize>(old(scan).tokens()) matches Ok(count) ==> forall|inv: Progress|
            (#[trigger] inv(
                0,
                buffered_after_read(old(scan).buffered(), old(scan).unread()),
                unread_after_read(old(scan).buffered(), old(scan).unread()),
                old(out)@,
                None,
            ) && forall|i: int, s: &mut Scanner<R>, o: &mut Vec<u8>, res: Result<(), ScanError>|
                #![trigger inv(i, s.buffered(), s.unread(), o@, None), call_ensures(handler, (s, o), res)]
                (0 <= i < count && inv(i, s.buffered(), s.unread(), o@, None) && call_ensures(
                    handler,
                    (s, o),
                    res,
                )) ==> inv(
                    i + 1,
                    final(s).buffered(),
                    final(s).unread(),
                    final(o)@,
                    failure(res),
                )) ==> exists|n: int|
                0 <= n <= count && #[trigger] inv(
                    n,
                    final(scan).buffered(),
                    final(scan).unread(),
                    final(out)@,
                    failure(r),
                ) && (r is Ok ==> n == count),
{
    let count: usize = match scan.try_next::<usize>() {
        Ok(count) => count,
        Err(e) => {
            return Err(e);
        },
    };
    let ghost first_buffered = scan.buffered();
    let ghost first_unread = scan.unread();
    let ghost first_out = out@;
    let mut done: usize = 0;
    while done < count
        invariant
            done <= count,
            read_spec::<usize>(old(scan).tokens()) == Ok::<usize, ScanError>(count),
            first_buffered == buffered_after_read(old(scan).buffered(), old(scan).unread()),
            first_unread == unread_after_read(old(scan).buffered(), old(scan).unread()),
            first_out == old(out)@,
            done == 0 ==> scan.buffered() == first_buffered && scan.unread() == first_unread
                && out@ == first_out,
            forall|s: &mut Scanner<R>, o: &mut Vec<u8>| call_requires(handler, (s, o)),
            forall|inv: Progress|
                (#[trigger] inv(0, first_buffered, first_unread, first_out, None) && forall|
                    i: int,
                    s: &mut Scanner<R>,
                    o: &mut Vec<u8>,
                    res: Result<(), ScanError>,
                |
                    #![trigger inv(i, s.buffered(), s.unread(), o@, None), call_ensures(handler, (s, o), res)]
                    (0 <= i < count && inv(i, s.buffered(), s.unread(), o@, None) && call_ensures(
                        handler,
                        (s, o),
                        res,
                    )) ==> inv(
                        i + 1,
                        final(s).buffered(),
                        final(s).unread(),
                        final(o)@,
                        failure(res),
                    )) ==> inv(done as int, scan.buffered(), scan.unread(), out@, None),
        decreases count - done,
    {
        let res = handler(scan, out);
        done = done + 1;
        match res {
            Ok(_) => {},
            Err(e) => {
                return Err(e);
            },
        }
    }
    Ok(())
}

} // verus!
