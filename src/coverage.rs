//! The coverage counter array kept by an instrumented program, and the control protocol's
//! commands on it.

use crate::counters::Counters;
use vstd::prelude::*;

verus! {

/// The number of guard counters the array holds.
pub const NUM_GUARDS: usize = 1048576;

/// Why the size of the counter array was refused.
#[derive(Clone, Copy, Debug, PartialEq, Eq, Structural)]
pub struct CapacityError {
    /// The size asked for.
    pub requested: u32,
}

/// One counter per instrumented location, of which the first `size` are in use.
pub struct CoverageCounters {
    arr: Vec<u32>,
    size: u32,
}

impl View for CoverageCounters {
    type V = (Seq<u32>, nat);

    closed spec fn view(&self) -> (Seq<u32>, nat) {
        (self.arr@, self.size as nat)
    }
}

impl CoverageCounters {
    /// The array fills all guards and the size in use lies within it.
    pub open spec fn wf(&self) -> bool {
        self@.0.len() == NUM_GUARDS && self@.1 <= NUM_GUARDS
    }

    /// The counters in use.
    pub open spec fn in_use(&self) -> Seq<u32> {
        self@.0.subrange(0, self@.1 as int)
    }

    /// All counters zero, none in use.
    pub fn new() -> (r: CoverageCounters)
        ensures
            r.wf(),
            r@.1 == 0,
            forall|i: int| 0 <= i < NUM_GUARDS ==> #[trigger] r@.0[i] == 0,
    {
        let mut arr: Vec<u32> = Vec::with_capacity(NUM_GUARDS);
        let mut i: usize = 0;
        while i < NUM_GUARDS
            invariant
                i <= NUM_GUARDS,
                arr@.len() == i,
                forall|j: int| 0 <= j < i ==> #[trigger] arr@[j] == 0,
            decreases NUM_GUARDS - i,
        {
            arr.push(0);
            i = i + 1;
        }
        CoverageCounters { arr, size: 0 }
    }

    /// Sets the number of counters in use; refused where it exceeds the array.
    pub fn set_size(&mut self, size: u32) -> (r: Result<(), CapacityError>)
        requires
            old(self).wf(),
        ensures
            final(self).wf(),
            final(self)@.0 == old(self)@.0,
            size as nat > NUM_GUARDS ==> r == Err::<(), _>(CapacityError { requested: size })
                && final(self)@.1 == old(self)@.1,
            size as nat <= NUM_GUARDS ==> r is Ok && final(self)@.1 == size,
    {
        if size as usize > self.arr.len() {
            Err(CapacityError { requested: size })
        } else {
            self.size = size;
            Ok(())
        }
    }

    /// Increments the counter `id`, wrapping around, and returns its previous value; 0 where
    /// `id` lies beyond the array, which is left as it was.
    pub fn inc(&mut self, id: u32) -> (r: u32)
        requires
            old(self).wf(),
        ensures
            final(self).wf(),
            final(self)@.1 == old(self)@.1,
            (id as nat) < NUM_GUARDS ==> r == old(self)@.0[id as int] && final(self)@.0
                == old(self)@.0.update(
                id as int,
                if old(self)@.0[id as int] == u32::MAX {
                    0u32
                } else {
                    (old(self)@.0[id as int] + 1) as u32
                },
            ),
            (id as nat) >= NUM_GUARDS ==> r == 0 && final(self)@.0 == old(self)@.0,
    {
        let i = id as usize;
        if i < self.arr.len() {
            let prev = self.arr[i];
            let next = if prev == u32::MAX {
                0
            } else {
                prev + 1
            };
            self.arr.set(i, next);
            prev
        } else {
            0
        }
    }

    /// The number of counters in use.
    pub fn size(&self) -> (r: u32)
        ensures
            r == self@.1,
    {
        self.size
    }

    /// A copy of the counters in use.
    pub fn get_values(&self) -> (r: Counters)
        requires
            self.wf(),
        ensures
            r@ == self.in_use(),
    {
        let n = self.size as usize;
        let mut out: Vec<u32> = Vec::with_capacity(n);
        let mut i: usize = 0;
        while i < n
            invariant
                n == self@.1,
                n <= self@.0.len(),
                i <= n,
                out@ == self@.0.subrange(0, i as int),
            decreases n - i,
        {
            out.push(self.arr[i]);
            proof {
                assert(out@ =~= self@.0.subrange(0, i + 1));
            }
            i = i + 1;
        }
        Counters::from_values(out)
    }

    /// The counters in use, which are reset to 0.
    pub fn get_and_reset(&mut self) -> (r: Counters)
        requires
            old(self).wf(),
        ensures
            final(self).wf(),
            r@ == old(self).in_use(),
            final(self)@.1 == old(self)@.1,
            final(self)@.0.len() == old(self)@.0.len(),
            forall|i: int|
                0 <= i < old(self)@.0.len() ==> #[trigger] final(self)@.0[i] == if i < old(self)@.1 {
                    0
                } else {
                    old(self)@.0[i]
                },
    {
        let values = self.get_values();
        let n = self.size as usize;
        let mut i: usize = 0;
        while i < n
            invariant
                n == old(self)@.1,
                n <= NUM_GUARDS,
                self@.0.len() == NUM_GUARDS,
                self@.0.len() == old(self)@.0.len(),
                self@.1 == old(self)@.1,
                i <= n,
                forall|j: int|
                    0 <= j < self@.0.len() ==> #[trigger] self@.0[j] == if j < i {
                        0
                    } else {
                        old(self)@.0[j]
                    },
            decreases n - i,
        {
            self.arr.set(i, 0);
            i = i + 1;
        }
        values
    }
}

/// A command of the control protocol.
#[derive(Clone, Copy, Debug, PartialEq, Eq, Structural)]
pub enum Commands {
    /// Read the counters.
    Get,
    /// Read the counters and reset them.
    GetAndReset,
    /// Acknowledge, then stop the program.
    Terminate,
    /// A command the program does not know.
    Unknown,
}

/// An answer of the control protocol.
pub enum CommandResponses {
    /// The command was carried out and has no value.
    Acknowledged,
    /// The counter values, answering `Get` and `GetAndReset`.
    Counters { values: Counters },
    /// The command was not understood.
    UnknownCommand,
}

/// Carries out one command on the counters. The flag of the result tells whether the program
/// stops after sending the answer.
pub fn respond(cmd: Commands, cov: &mut CoverageCounters) -> (r: (CommandResponses, bool))
    requires
        old(cov).wf(),
    ensures
        final(cov).wf(),
        match cmd {
            Commands::Get => r.0 matches CommandResponses::Counters { values } && values@
                == old(cov).in_use() && !r.1 && final(cov)@ == old(cov)@,
            Commands::GetAndReset => r.0 matches CommandResponses::Counters { values } && values@
                == old(cov).in_use() && !r.1 && final(cov).in_use() == Seq::new(
                old(cov)@.1,
                |_i: int| 0u32,
            ),
            Commands::Terminate => r.0 is Acknowledged && r.1 && final(cov)@ == old(cov)@,
            Commands::Unknown => r.0 is UnknownCommand && !r.1 && final(cov)@ == old(cov)@,
        },
{
    match cmd {
        Commands::Get => (CommandResponses::Counters { values: cov.get_values() }, false),
        Commands::GetAndReset => {
            let values = cov.get_and_reset();
            proof {
                assert(cov.in_use() =~= Seq::new(old(cov)@.1, |_i: int| 0u32));
            }
            (CommandResponses::Counters { values }, false)
        },
        Commands::Terminate => (CommandResponses::Acknowledged, true),
        Commands::Unknown => (CommandResponses::UnknownCommand, false),
    }
}

/// The answer did not fit the command that was sent.
#[derive(Clone, Copy, Debug, PartialEq, Eq, Structural)]
pub struct UnexpectedResponse;

/// The counters of an answer to `Get` or `GetAndReset`.
pub fn expect_counters(resp: CommandResponses) -> (r: Result<Counters, UnexpectedResponse>)
    ensures
        match resp {
            CommandResponses::Counters { values } => r is Ok && r->Ok_0@ == values@,
            _ => r is Err,
        },
{
    match resp {
        CommandResponses::Counters { values } => Ok(values),
        _ => Err(UnexpectedResponse),
    }
}

/// Checks the answer to `Terminate`.
pub fn expect_ok(resp: &CommandResponses) -> (r: Result<(), UnexpectedResponse>)
    ensures
        r is Ok <==> resp is Acknowledged,
{
    match resp {
        CommandResponses::Acknowledged => Ok(()),
        _ => Err(UnexpectedResponse),
    }
}

} // verus!
