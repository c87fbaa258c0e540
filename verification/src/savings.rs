//! The savings tracker: what one invocation saved, as a record for the
//! history.

use vstd::prelude::*;
use vstd::string::StringExecFns;
use crate::jj::outcome::Outcome;
use crate::jj::Plan;
use crate::text::byte_len;

verus! {

/// One entry of the savings history.
#[derive(Debug, Clone, PartialEq, Eq)]
pub struct SavingsRecord {
    /// The command as the user could have typed it.
    pub command: String,
    /// The command as it was run through this tool.
    pub rewritten: String,
    /// Size in bytes of what the command wrote.
    pub raw_len: usize,
    /// Size in bytes of what was shown in its place.
    pub compact_len: usize,
    /// When the command ran, in seconds since the epoch.
    pub timestamp: u64,
}

impl SavingsRecord {
    /// The record of a command whose output `raw` was shown as `compact`.
    pub fn new(command: &str, rewritten: &str, raw: &str, compact: &str, timestamp: u64) -> (r:
        Self)
        ensures
            r.command@ == command@,
            r.rewritten@ == rewritten@,
            r.raw_len == byte_len(raw@) as usize,
            r.compact_len == byte_len(compact@) as usize,
            r.timestamp == timestamp,
    {
        SavingsRecord {
            command: command.to_owned(),
            rewritten: rewritten.to_owned(),
            raw_len: raw.len(),
            compact_len: compact.len(),
            timestamp,
        }
    }

    /// The record of a command whose output was relayed as it came: nothing
    /// was measured, and nothing counts as saved.
    pub fn passthrough(command: &str, rewritten: &str, timestamp: u64) -> (r: Self)
        ensures
            r.command@ == command@,
            r.rewritten@ == rewritten@,
            r.raw_len == 0,
            r.compact_len == 0,
            r.timestamp == timestamp,
            r.saved_bytes() == 0,
    {
        SavingsRecord {
            command: command.to_owned(),
            rewritten: rewritten.to_owned(),
            raw_len: 0,
            compact_len: 0,
            timestamp,
        }
    }

    /// The record of `jj` run with `args` and left alone: it is recorded under
    /// `jj` and the arguments, and as relayed.
    pub fn relayed(args: &str, timestamp: u64) -> (r: Self)
        ensures
            r.command@ == "jj "@ + args@,
            r.rewritten@ == "rtk jj "@ + args@ + " (passthrough)"@,
            r.raw_len == 0,
            r.compact_len == 0,
            r.timestamp == timestamp,
    {
        let mut command = String::new();
        command.append("jj ");
        command.append(args);
        let mut rewritten = String::new();
        rewritten.append("rtk jj ");
        rewritten.append(args);
        rewritten.append(" (passthrough)");
        SavingsRecord { command, rewritten, raw_len: 0, compact_len: 0, timestamp }
    }

    /// The record of a planned invocation and what it came to, if it is
    /// recorded: it is where the plan captures the output and the outcome
    /// has sizes.
    pub fn of(plan: &Plan, outcome: &Outcome, timestamp: u64) -> (r: Option<Self>)
        ensures
            r is Some <==> plan.captured && outcome.sizes is Some,
            r matches Some(record) ==> {
                &&& record.command@ == plan.command@
                &&& record.rewritten@ == plan.rewritten@
                &&& record.raw_len == outcome.sizes->0.raw
                &&& record.compact_len == outcome.sizes->0.compact
                &&& record.timestamp == timestamp
            },
    {
        if !plan.captured {
            return None;
        }
        match outcome.sizes {
            Some(sizes) => Some(
                SavingsRecord {
                    command: plan.command.clone(),
                    rewritten: plan.rewritten.clone(),
                    raw_len: sizes.raw,
                    compact_len: sizes.compact,
                    timestamp,
                },
            ),
            None => None,
        }
    }

    /// The bytes saved: by how much the compact text is smaller, and 0 where
    /// it is not.
    pub open spec fn saved_bytes(&self) -> nat {
        if self.raw_len >= self.compact_len {
            (self.raw_len - self.compact_len) as nat
        } else {
            0
        }
    }

    /// The bytes saved.
    pub fn saved(&self) -> (n: usize)
        ensures
            n == self.saved_bytes(),
    {
        if self.raw_len >= self.compact_len {
            self.raw_len - self.compact_len
        } else {
            0
        }
    }
}

} // verus!
