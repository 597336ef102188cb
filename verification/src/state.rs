//! What a connection knows of the processes that it has started.

use std::collections::HashMap;
use vstd::prelude::*;

verus! {

broadcast use vstd::std_specs::hash::group_hash_axioms;

/// How many messages may wait for the writer of a connection.
pub const QUEUE_LEN: usize = 16;

/// A process that the connection can write to, through the handle `stdin`.
#[derive(Debug)]
pub struct ProcState<P> {
    pub stdin: P,
}

impl<P> ProcState<P> {
    /// The process that is written to through `stdin`.
    pub fn new(stdin: P) -> (r: ProcState<P>)
        ensures
            r.stdin == stdin,
    {
        ProcState { stdin }
    }
}

/// The processes of a connection, by their numbers.
#[derive(Debug)]
pub struct State<P> {
    processes: HashMap<u32, ProcState<P>>,
}

impl<P> View for State<P> {
    type V = Map<u32, ProcState<P>>;

    closed spec fn view(&self) -> Map<u32, ProcState<P>> {
        self.processes@
    }
}

impl<P> State<P> {
    /// No processes.
    pub fn new() -> (r: State<P>)
        ensures
            r@ == Map::<u32, ProcState<P>>::empty(),
    {
        State { processes: HashMap::new() }
    }

    /// Whether the process is known.
    pub fn knows(&self, pid: u32) -> (r: bool)
        ensures
            r == self@.contains_key(pid),
    {
        self.processes.contains_key(&pid)
    }

    /// Makes a process known. One that had the same number before is
    /// forgotten.
    pub fn insert(&mut self, pid: u32, process: ProcState<P>)
        ensures
            final(self)@ == old(self)@.insert(pid, process),
    {
        self.processes.insert(pid, process);
    }

    /// The handle to write to a process with, where the process is known.
    /// Nothing but what it stands for can be changed through it.
    pub fn stdin_mut(&mut self, pid: u32) -> (r: Option<&mut P>)
        ensures
            match r {
                Some(stdin) => {
                    &&& old(self)@.contains_key(pid)
                    &&& *stdin == old(self)@[pid].stdin
                    &&& final(self)@ == old(self)@.insert(pid, (ProcState { stdin: *final(stdin) }))
                },
                None => {
                    &&& !old(self)@.contains_key(pid)
                    &&& final(self)@ == old(self)@
                },
            },
    {
        match self.processes.entry(pid) {
            std::collections::hash_map::Entry::Occupied(process) => Some(
                &mut process.into_mut().stdin,
            ),
            std::collections::hash_map::Entry::Vacant(_) => None,
        }
    }
}

/// In the beginning no process is known.
pub proof fn law_none_known<P>(s: State<P>, pid: u32, r: bool)
    requires
        call_ensures(State::<P>::new, (), s),
        call_ensures(State::<P>::knows, (&s, pid), r),
    ensures
        !r,
{
}

/// A process that is made known is known from then on under its number, and
/// is written to through its handle; all others stay as they were.
pub proof fn law_made_known<P>(pid: u32, stdin: P, process: ProcState<P>, other: u32)
    requires
        call_ensures(ProcState::<P>::new, (stdin,), process),
    ensures
        forall|s: &mut State<P>|
            #[trigger] call_ensures(State::<P>::insert, (s, pid, process), ()) ==> {
                &&& final(s)@.contains_key(pid)
                &&& final(s)@[pid].stdin == stdin
                &&& other != pid ==> (final(s)@.contains_key(other) <==> s@.contains_key(other))
                &&& other != pid && s@.contains_key(other) ==> final(s)@[other] == s@[other]
            },
        forall|s: State<P>, r: bool|
            #[trigger] call_ensures(State::<P>::knows, (&s, pid), r) ==> (r <==> s@.contains_key(
                pid,
            )),
{
}

/// The handle of a process is given out if and only if the process is known,
/// and what is done through it touches no other process.
pub proof fn law_handle_of_process<P>(pid: u32, other: u32)
    ensures
        forall|s: &mut State<P>, r: Option<&mut P>|
            #[trigger] call_ensures(State::<P>::stdin_mut, (s, pid), r) ==> {
                &&& r is Some <==> s@.contains_key(pid)
                &&& r matches Some(stdin) ==> *stdin == s@[pid].stdin && final(s)@.contains_key(
                    pid,
                ) && final(s)@[pid].stdin == *final(stdin)
                &&& final(s)@.contains_key(other) <==> s@.contains_key(other)
                &&& other != pid && s@.contains_key(other) ==> final(s)@[other] == s@[other]
            },
{
}

/// Sixteen messages may wait for the writer.
pub proof fn law_queue_len()
    ensures
        QUEUE_LEN == 16,
{
}

} // verus!
