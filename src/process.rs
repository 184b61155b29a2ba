//! Running game processes: which instance runs under which process id, and
//! the command that stops one.

use vstd::prelude::*;
use crate::text::{copy_str, decimal, decimal_text, same_text, texts};

verus! {

#[derive(Clone, Debug, PartialEq, Eq)]
pub struct RunningEntry {
    pub instance_id: String,
    pub pid: u32,
}

/// Instances with a running game process.
pub struct RunningInstances {
    entries: Vec<RunningEntry>,
}

/// The process id recorded for `id` (the first entry, should there be several).
pub open spec fn pid_in(v: Seq<(Seq<char>, u32)>, id: Seq<char>) -> Option<u32>
    decreases v.len(),
{
    if v.len() == 0 {
        None
    } else if v[0].0 == id {
        Some(v[0].1)
    } else {
        pid_in(v.drop_first(), id)
    }
}

impl RunningInstances {
    /// Instance ids and process ids, in order of recording.
    pub closed spec fn view(&self) -> Seq<(Seq<char>, u32)> {
        self.entries@.map_values(|e: RunningEntry| (e.instance_id@, e.pid))
    }

    pub fn new() -> (r: RunningInstances)
        ensures
            r.view().len() == 0,
    {
        let r = RunningInstances { entries: Vec::new() };
        assert(r.view() =~= Seq::<(Seq<char>, u32)>::empty());
        r
    }

    /// Forgets every entry of `id`.
    pub fn remove(&mut self, id: &str)
        ensures
            pid_in(final(self).view(), id@) is None,
            forall|other: Seq<char>| other != id@ ==> pid_in(final(self).view(), other) == pid_in(old(self).view(), other),
    {
        let ghost v0 = self.view();
        let mut kept: Vec<RunningEntry> = Vec::new();
        let mut i: usize = 0;
        while i < self.entries.len()
            invariant
                i <= self.entries.len(),
                self.view() == v0,
                pid_in(kept@.map_values(|e: RunningEntry| (e.instance_id@, e.pid)), id@) is None,
                forall|other: Seq<char>| other != id@ ==> pid_in(kept@.map_values(|e: RunningEntry| (e.instance_id@, e.pid)), other)
                    == pid_in(v0.subrange(0, i as int), other),
            decreases self.entries.len() - i,
        {
            let ghost kv = kept@.map_values(|e: RunningEntry| (e.instance_id@, e.pid));
            let e = RunningEntry { instance_id: self.entries[i].instance_id.clone(), pid: self.entries[i].pid };
            proof {
                lemma_pid_in_push_prefix(v0, i as int);
            }
            if !same_text(e.instance_id.as_str(), id) {
                let ghost ev = (e.instance_id@, e.pid);
                kept.push(e);
                proof {
                    assert(kept@.map_values(|e: RunningEntry| (e.instance_id@, e.pid)) =~= kv.push(ev));
                    lemma_pid_in_push(kv, ev);
                }
            }
            i = i + 1;
        }
        assert(v0.subrange(0, v0.len() as int) =~= v0);
        self.entries = kept;
    }

    /// Records that `id` runs as process `pid`.
    pub fn record(&mut self, id: &str, pid: u32)
        ensures
            pid_in(final(self).view(), id@) == Some(pid),
            forall|other: Seq<char>| other != id@ ==> pid_in(final(self).view(), other) == pid_in(old(self).view(), other),
    {
        self.remove(id);
        let ghost v = self.view();
        self.entries.push(RunningEntry { instance_id: copy_str(id), pid });
        proof {
            assert(self.view() =~= v.push((id@, pid)));
            lemma_pid_in_push(v, (id@, pid));
        }
    }

    /// The process to signal for `id`; fails when it is not running.
    pub fn pid_of(&self, id: &str) -> (r: Result<u32, String>)
        ensures
            match pid_in(self.view(), id@) {
                Some(p) => r == Ok::<u32, String>(p),
                None => r matches Err(e) && e@ == "instance not running"@,
            },
    {
        let mut i: usize = 0;
        assert(self.view().subrange(0, self.view().len() as int) =~= self.view());
        while i < self.entries.len()
            invariant
                i <= self.entries.len(),
                pid_in(self.view(), id@) == pid_in(self.view().subrange(i as int, self.view().len() as int), id@),
            decreases self.entries.len() - i,
        {
            assert(self.view().subrange(i as int, self.view().len() as int).drop_first() =~= self.view().subrange(i + 1, self.view().len() as int));
            assert(self.view().subrange(i as int, self.view().len() as int)[0] == self.view()[i as int]);
            if same_text(self.entries[i].instance_id.as_str(), id) {
                return Ok(self.entries[i].pid);
            }
            i = i + 1;
        }
        Err(copy_str("instance not running"))
    }
}

proof fn lemma_pid_in_push(v: Seq<(Seq<char>, u32)>, e: (Seq<char>, u32))
    ensures
        forall|id: Seq<char>| #![trigger pid_in(v.push(e), id)]
            pid_in(v.push(e), id) == if pid_in(v, id) is Some { pid_in(v, id) } else if e.0 == id { Some(e.1) } else { None },
    decreases v.len(),
{
    if v.len() > 0 {
        assert(v.push(e).drop_first() =~= v.drop_first().push(e));
        lemma_pid_in_push(v.drop_first(), e);
    } else {
        assert(v.push(e).drop_first() =~= v);
    }
}

proof fn lemma_pid_in_push_prefix(v: Seq<(Seq<char>, u32)>, i: int)
    requires
        0 <= i < v.len(),
    ensures
        v.subrange(0, i + 1) == v.subrange(0, i).push(v[i]),
        forall|id: Seq<char>| #![trigger pid_in(v.subrange(0, i + 1), id)]
            pid_in(v.subrange(0, i + 1), id) == if pid_in(v.subrange(0, i), id) is Some {
                pid_in(v.subrange(0, i), id)
            } else if v[i].0 == id {
                Some(v[i].1)
            } else {
                None
            },
{
    assert(v.subrange(0, i + 1) =~= v.subrange(0, i).push(v[i]));
    lemma_pid_in_push(v.subrange(0, i), v[i]);
}

/// The command that signals a process: `taskkill /PID pid` (with `/F` to
/// force) on Windows, else `kill -TERM pid` (or `-KILL` to force).
pub fn signal_command(pid: u32, force: bool, windows: bool) -> (r: (String, Vec<String>))
    ensures
        windows ==> r.0@ == "taskkill"@ && texts(r.1@) == seq!["/PID"@, decimal(pid as nat)] + if force {
            seq!["/F"@]
        } else {
            Seq::empty()
        },
        !windows ==> r.0@ == "kill"@ && texts(r.1@) == seq![if force { "-KILL"@ } else { "-TERM"@ }, decimal(pid as nat)],
{
    let mut args: Vec<String> = Vec::new();
    let n = decimal_text(pid as u64);
    if windows {
        args.push(copy_str("/PID"));
        args.push(n);
        if force {
            args.push(copy_str("/F"));
        }
        assert(texts(args@) =~= seq!["/PID"@, decimal(pid as nat)] + if force { seq!["/F"@] } else { Seq::empty() });
        (copy_str("taskkill"), args)
    } else {
        args.push(if force { copy_str("-KILL") } else { copy_str("-TERM") });
        args.push(n);
        assert(texts(args@) =~= seq![if force { "-KILL"@ } else { "-TERM"@ }, decimal(pid as nat)]);
        (copy_str("kill"), args)
    }
}

} // verus!
