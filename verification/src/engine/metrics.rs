//! Timing of commands for the local telemetry.
use crate::engine::analyzer::diff::{count_in, names_view};
use crate::engine::strtable::{enumerates, pairs_view, StrTable};
use vstd::prelude::*;

verus! {

/// `std::time::Instant`, carried through as an opaque value.
#[verifier::external_type_specification]
#[verifier::external_body]
pub struct ExInstant(std::time::Instant);

/// `std::time::Instant::now()`. Nothing is claimed of the instant returned.
#[verifier::external_body]
fn instant_now() -> std::time::Instant {
    std::time::Instant::now()
}

/// Times one command from its start.
pub struct MetricsRecorder {
    start: std::time::Instant,
    command: String,
}

impl MetricsRecorder {
    /// The name of the command being timed.
    pub closed spec fn command_name(&self) -> Seq<char> {
        self.command@
    }

    /// Starts timing the command `command` now.
    pub fn new(command: &str) -> (r: Self)
        ensures
            r.command_name() == command@,
    {
        MetricsRecorder { start: instant_now(), command: command.to_owned() }
    }

    /// The name of the command being timed.
    pub fn command(&self) -> (c: &str)
        ensures
            c@ == self.command_name(),
    {
        self.command.as_str()
    }

    /// The instant at which timing started.
    pub closed spec fn start_instant(&self) -> std::time::Instant {
        self.start
    }

    /// When the command started.
    pub fn started(&self) -> (t: &std::time::Instant)
        ensures
            *t == self.start_instant(),
    {
        &self.start
    }
}

/// How many times each command name occurs in `s`.
pub open spec fn command_tally(s: Seq<Seq<char>>) -> Map<Seq<char>, nat>
    decreases s.len(),
{
    if s.len() == 0 {
        Map::empty()
    } else {
        count_in(command_tally(s.drop_last()), s.last())
    }
}

/// The number of records of each command among the names `commands`, each
/// command once.
pub fn command_counts(commands: &Vec<String>) -> (r: Vec<(String, usize)>)
    ensures
        enumerates(pairs_view(r@), command_tally(names_view(commands@)).map_values(|n: nat| n as usize)),
{
    let ghost names = names_view(commands@);
    let mut t: StrTable<usize> = StrTable::new();
    let mut i: usize = 0;
    assert(t.view() =~= command_tally(names.take(0)).map_values(|n: nat| n as usize));
    while i < commands.len()
        invariant
            i <= commands@.len(),
            names == names_view(commands@),
            t.wf(),
            forall|k: Seq<char>| #[trigger] command_tally(names.take(i as int)).contains_key(k) ==> command_tally(
                names.take(i as int),
            )[k] <= i,
            t.view() == command_tally(names.take(i as int)).map_values(|n: nat| n as usize),
        decreases commands@.len() - i,
    {
        let ghost m = command_tally(names.take(i as int));
        let ghost k = commands@[i as int]@;
        proof {
            assert(names.take(i + 1).drop_last() =~= names.take(i as int));
            assert(names.take(i + 1).last() == k);
        }
        let next: usize = match t.get(commands[i].as_str()) {
            Some(c) => c + 1,
            None => 1,
        };
        t.insert(commands[i].clone(), next);
        assert(t.view() =~= count_in(m, k).map_values(|n: nat| n as usize));
        i += 1;
    }
    assert(names.take(i as int) =~= names);
    t.entries()
}

} // verus!
