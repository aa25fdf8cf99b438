use crate::stream::port_spec::{
    parse_usize, parse_usize_spec, split_bytes, split_on, ENTRY_SEPARATOR,
};
use vstd::prelude::*;
use vstd::utf8::encode_utf8;

verus! {

/// Calls `core_affinity::get_core_ids`, the logical CPUs on which the current
/// thread may run (read from the OS), and hands out their ids. Claimed: on Linux
/// the crate scans the CPU set from 0 to 1023 in turn, so the ids are below 1024
/// and ascending; which CPUs the machine reports is otherwise not stated.
#[verifier::external_body]
fn available_core_ids() -> (r: Option<Vec<usize>>)
    ensures
        r matches Some(ids) ==> forall|i: int| 0 <= i < ids@.len() ==> #[trigger] ids@[i] < 1024,
        r matches Some(ids) ==> forall|i: int, j: int|
            0 <= i < j < ids@.len() ==> #[trigger] ids@[i] < #[trigger] ids@[j],
{
    core_affinity::get_core_ids().map(|ids| ids.iter().map(|c| c.id).collect())
}

/// Calls `core_affinity::set_for_current`, which pins the current thread to the
/// logical CPU `id` and says whether the OS accepted it. Ids of 1024 and above are
/// out of the CPU set that the call fills on Linux, so they are not passed.
#[verifier::external_body]
fn pin_current_thread(id: usize) -> (accepted: bool)
    requires
        id < 1024,
{
    core_affinity::set_for_current(core_affinity::CoreId { id })
}

/// Why an affinity list was refused.
#[derive(Clone, Copy, Debug, PartialEq, Eq)]
pub enum AffinityError {
    /// An entry of the list is not a number.
    InvalidCoreId,
}

/// An affinity list is valid when each of its non-empty comma-separated entries
/// is a number.
pub open spec fn cores_valid(s: Seq<u8>) -> bool {
    forall|i: int|
        0 <= i < split_on(s, ENTRY_SEPARATOR).len() && #[trigger] split_on(s, ENTRY_SEPARATOR)[i].len()
            > 0 ==> parse_usize_spec(split_on(s, ENTRY_SEPARATOR)[i]) is Some
}

/// The ids in `available` equal to `id`, in order.
pub open spec fn matching(available: Seq<usize>, id: usize) -> Seq<usize>
    decreases available.len(),
{
    if available.len() == 0 {
        Seq::<usize>::empty()
    } else if available.last() == id {
        matching(available.drop_last(), id).push(id)
    } else {
        matching(available.drop_last(), id)
    }
}

/// The cores enabled by a list of entries: for each non-empty entry in turn, the
/// available cores with that id.
pub open spec fn enabled_cores(entries: Seq<Seq<u8>>, available: Seq<usize>) -> Seq<usize>
    decreases entries.len(),
{
    if entries.len() == 0 {
        Seq::<usize>::empty()
    } else if entries.last().len() == 0 {
        enabled_cores(entries.drop_last(), available)
    } else {
        enabled_cores(entries.drop_last(), available) + matching(
            available,
            parse_usize_spec(entries.last()).unwrap(),
        )
    }
}

pub proof fn lemma_matching_members(available: Seq<usize>, id: usize)
    ensures
        forall|i: int| 0 <= i < matching(available, id).len() ==> #[trigger] matching(available, id)[i] == id,
        forall|c: usize| #[trigger] matching(available, id).contains(c) ==> available.contains(c),
    decreases available.len(),
{
    if available.len() > 0 {
        lemma_matching_members(available.drop_last(), id);
        assert forall|c: usize| #[trigger] matching(available, id).contains(c) implies available.contains(c) by {
            if matching(available.drop_last(), id).contains(c) {
                let k = choose|k: int| 0 <= k < matching(available.drop_last(), id).len() && matching(available.drop_last(), id)[k] == c;
                assert(available.drop_last().contains(c));
                let j = choose|j: int| 0 <= j < available.drop_last().len() && available.drop_last()[j] == c;
                assert(available[j] == c);
            } else {
                assert(c == id && available.last() == id);
                assert(available[available.len() - 1] == c);
            }
        }
    }
}

/// Only cores that the OS reported are handed out: every core that a list enables
/// is one of the available cores.
pub proof fn lemma_enabled_cores_available(entries: Seq<Seq<u8>>, available: Seq<usize>)
    ensures
        forall|c: usize| #[trigger] enabled_cores(entries, available).contains(c) ==> available.contains(c),
    decreases entries.len(),
{
    if entries.len() > 0 {
        lemma_enabled_cores_available(entries.drop_last(), available);
        if entries.last().len() > 0 {
            let id = parse_usize_spec(entries.last()).unwrap();
            lemma_matching_members(available, id);
            let front = enabled_cores(entries.drop_last(), available);
            let back = matching(available, id);
            assert forall|c: usize| #[trigger] enabled_cores(entries, available).contains(c) implies available.contains(c) by {
                let k = choose|k: int| 0 <= k < (front + back).len() && (front + back)[k] == c;
                if k < front.len() {
                    assert(front[k] == c);
                    assert(front.contains(c));
                } else {
                    assert(back[k - front.len()] == c);
                    assert(back.contains(c));
                }
            }
        }
    }
}

/// Hands out logical CPUs to test threads in turn, from a user's list.
pub struct CpuAffinityManager {
    enabled_cores: Vec<usize>,
    last_core_pointer: usize,
}

impl CpuAffinityManager {
    /// The cores to hand out, in order.
    pub closed spec fn enabled(&self) -> Seq<usize> {
        self.enabled_cores@
    }

    /// The position of the core to hand out next.
    pub closed spec fn pointer(&self) -> usize {
        self.last_core_pointer
    }

    /// The position stays inside a non-empty list, and every core is one the OS reported.
    pub closed spec fn wf(&self) -> bool {
        &&& (self.enabled_cores@.len() == 0 || self.last_core_pointer < self.enabled_cores@.len())
        &&& forall|i: int| 0 <= i < self.enabled_cores@.len() ==> #[trigger] self.enabled_cores@[i] < 1024
    }

    /// A manager for the cores that `cores` (ids separated by commas) names among
    /// `available`, in the order the list names them.
    pub fn from_available(cores: &str, available: &Vec<usize>) -> (r: Result<CpuAffinityManager, AffinityError>)
        requires
            forall|i: int| 0 <= i < available@.len() ==> #[trigger] available@[i] < 1024,
        ensures
            !cores_valid(encode_utf8(cores@)) ==> r == Err::<CpuAffinityManager, AffinityError>(AffinityError::InvalidCoreId),
            cores_valid(encode_utf8(cores@)) ==> (r matches Ok(m) && m.wf() && m.pointer() == 0
                && m.enabled() == enabled_cores(split_on(encode_utf8(cores@), ENTRY_SEPARATOR), available@)),
    {
        let bytes = cores.as_bytes();
        let ghost s = bytes@;
        let entries = split_bytes(bytes, ENTRY_SEPARATOR);
        let m = entries.len();
        let mut enabled: Vec<usize> = Vec::new();
        proof {
            assert(split_on(s, ENTRY_SEPARATOR).take(0) =~= Seq::<Seq<u8>>::empty());
        }
        for i in 0..m
            invariant
                s == encode_utf8(cores@),
                m == entries@.len(),
                m == split_on(s, ENTRY_SEPARATOR).len(),
                forall|k: int| 0 <= k < m ==> (#[trigger] entries@[k])@ == split_on(s, ENTRY_SEPARATOR)[k],
                forall|k: int| 0 <= k < i && #[trigger] split_on(s, ENTRY_SEPARATOR)[k].len() > 0
                    ==> parse_usize_spec(split_on(s, ENTRY_SEPARATOR)[k]) is Some,
                enabled@ =~= enabled_cores(split_on(s, ENTRY_SEPARATOR).take(i as int), available@),
                forall|k: int| 0 <= k < enabled@.len() ==> #[trigger] enabled@[k] < 1024,
                forall|k: int| 0 <= k < available@.len() ==> #[trigger] available@[k] < 1024,
        {
            let ghost es = split_on(s, ENTRY_SEPARATOR);
            proof {
                assert(es.take(i + 1).drop_last() =~= es.take(i as int));
            }
            let entry = entries[i].as_slice();
            assert(entry@ == es[i as int]);
            if entry.len() > 0 {
                let cid = match parse_usize(entry) {
                    Some(c) => c,
                    None => {
                        return Err(AffinityError::InvalidCoreId);
                    },
                };
                let ghost before = enabled@;
                let n = available.len();
                for j in 0..n
                    invariant
                        n == available@.len(),
                        enabled@ =~= before + matching(available@.take(j as int), cid),
                        forall|k: int| 0 <= k < enabled@.len() ==> #[trigger] enabled@[k] < 1024,
                        forall|k: int| 0 <= k < before.len() ==> #[trigger] before[k] < 1024,
                        forall|k: int| 0 <= k < available@.len() ==> #[trigger] available@[k] < 1024,
                {
                    proof {
                        assert(available@.take(j + 1).drop_last() =~= available@.take(j as int));
                    }
                    if available[j] == cid {
                        enabled.push(available[j]);
                    }
                }
                proof {
                    assert(available@.take(n as int) =~= available@);
                }
            }
        }
        proof {
            assert(split_on(s, ENTRY_SEPARATOR).take(m as int) =~= split_on(s, ENTRY_SEPARATOR));
        }
        Ok(CpuAffinityManager { enabled_cores: enabled, last_core_pointer: 0 })
    }

    /// A manager for the cores that `cores` (ids separated by commas) names among
    /// those that the OS reports for the current thread (none, where it reports
    /// nothing). An entry that is not a number is refused.
    pub fn new(cores: &str) -> (r: Result<CpuAffinityManager, AffinityError>)
        ensures
            !cores_valid(encode_utf8(cores@)) ==> r == Err::<CpuAffinityManager, AffinityError>(AffinityError::InvalidCoreId),
            cores_valid(encode_utf8(cores@)) ==> (r matches Ok(m) && m.wf() && m.pointer() == 0
                && exists|available: Seq<usize>|
                {
                    &&& forall|i: int| 0 <= i < available.len() ==> #[trigger] available[i] < 1024
                    &&& forall|i: int, j: int|
                        0 <= i < j < available.len() ==> #[trigger] available[i] < #[trigger] available[j]
                    &&& m.enabled() == enabled_cores(
                        split_on(encode_utf8(cores@), ENTRY_SEPARATOR),
                        available,
                    )
                }),
    {
        let available = match available_core_ids() {
            Some(ids) => ids,
            None => Vec::new(),
        };
        let r = Self::from_available(cores, &available);
        proof {
            if cores_valid(encode_utf8(cores@)) {
                let m = r->Ok_0;
                assert(m.enabled() == enabled_cores(
                    split_on(encode_utf8(cores@), ENTRY_SEPARATOR),
                    available@,
                ));
            }
        }
        r
    }

    /// The cores handed out in turn.
    pub fn cores(&self) -> (r: &[usize])
        ensures
            r@ == self.enabled(),
    {
        self.enabled_cores.as_slice()
    }

    /// The core whose turn it is, if any is enabled, moving the turn on round robin.
    pub fn next_core(&mut self) -> (r: Option<usize>)
        requires
            old(self).wf(),
        ensures
            final(self).wf(),
            final(self).enabled() == old(self).enabled(),
            old(self).enabled().len() == 0 ==> r is None && final(self).pointer() == old(
                self,
            ).pointer(),
            old(self).enabled().len() > 0 ==> r == Some(old(self).enabled()[old(self).pointer() as int])
                && final(self).pointer() == (old(self).pointer() + 1) % (
            old(self).enabled().len() as int),
            r matches Some(id) ==> id < 1024,
    {
        if self.enabled_cores.len() > 0 {
            let core_id = self.enabled_cores[self.last_core_pointer];
            let len = self.enabled_cores.len();
            let p = self.last_core_pointer;
            if p == len - 1 {
                assert((p + 1) % (len as int) == 0) by (nonlinear_arith)
                    requires
                        p + 1 == len,
                        len > 0,
                ;
                self.last_core_pointer = 0;
            } else {
                assert((p + 1) % (len as int) == p + 1) by (nonlinear_arith)
                    requires
                        p + 1 < len,
                ;
                self.last_core_pointer = p + 1;
            }
            Some(core_id)
        } else {
            None
        }
    }

    /// Hands out the core whose turn it is, if any is enabled, and moves the turn
    /// on. The body also asks the OS to pin the current thread to that core; the
    /// contract states only which core is handed out, not that the OS was asked.
    pub fn set_affinity(&mut self) -> (core: Option<usize>)
        requires
            old(self).wf(),
        ensures
            turn_taken(*old(self), core, *final(self)),
    {
        let next = self.next_core();
        if let Some(core_id) = next {
            let _accepted = pin_current_thread(core_id);
        }
        next
    }
}

/// What one call of `set_affinity` does: the enabled cores stay; with none
/// enabled, no core is handed out and the turn stays; else the core whose turn it
/// is is handed out and the turn moves on round robin.
pub open spec fn turn_taken(before: CpuAffinityManager, core: Option<usize>, after: CpuAffinityManager) -> bool {
    &&& after.wf()
    &&& after.enabled() == before.enabled()
    &&& before.enabled().len() == 0 ==> core is None && after.pointer() == before.pointer()
    &&& before.enabled().len() > 0 ==> core == Some(before.enabled()[before.pointer() as int])
        && after.pointer() == (before.pointer() + 1) % (before.enabled().len() as int)
}

/// Cores are handed out round robin over any number of calls: on a fresh manager
/// with `k` cores enabled, the `i`-th call of `set_affinity` (from zero) hands out
/// enabled core `i % k`, and with no core enabled no call hands out any.
pub proof fn lemma_handed_round_robin(managers: Seq<CpuAffinityManager>, handed: Seq<Option<usize>>)
    requires
        managers.len() == handed.len() + 1,
        managers[0].wf(),
        managers[0].pointer() == 0,
        forall|i: int| 0 <= i < handed.len() ==> turn_taken(managers[i], #[trigger] handed[i], managers[i + 1]),
    ensures
        forall|i: int| 0 <= i < handed.len() && managers[0].enabled().len() > 0 ==> #[trigger] handed[i] == Some(
            managers[0].enabled()[i % (managers[0].enabled().len() as int)],
        ),
        forall|i: int| 0 <= i < handed.len() && managers[0].enabled().len() == 0 ==> #[trigger] handed[i] is None,
{
    let cores = managers[0].enabled();
    let k = cores.len() as int;
    assert forall|i: int| 0 <= i < handed.len() implies {
        &&& managers[i].enabled() == cores
        &&& k > 0 ==> managers[i].pointer() == i % k
        &&& k == 0 ==> #[trigger] handed[i] is None
        &&& k > 0 ==> handed[i] == Some(cores[i % k])
    } by {
        lemma_turns_reached(managers, handed, i);
    }
}

proof fn lemma_turns_reached(managers: Seq<CpuAffinityManager>, handed: Seq<Option<usize>>, i: int)
    requires
        managers.len() == handed.len() + 1,
        managers[0].wf(),
        managers[0].pointer() == 0,
        forall|j: int| 0 <= j < handed.len() ==> turn_taken(managers[j], #[trigger] handed[j], managers[j + 1]),
        0 <= i <= handed.len(),
    ensures
        managers[i].wf(),
        managers[i].enabled() == managers[0].enabled(),
        managers[0].enabled().len() > 0 ==> managers[i].pointer() == i % (managers[0].enabled().len() as int),
        i < handed.len() && managers[0].enabled().len() == 0 ==> handed[i] is None,
        i < handed.len() && managers[0].enabled().len() > 0 ==> handed[i] == Some(
            managers[0].enabled()[i % (managers[0].enabled().len() as int)],
        ),
    decreases i,
{
    let k = managers[0].enabled().len() as int;
    if i > 0 {
        lemma_turns_reached(managers, handed, i - 1);
        assert(turn_taken(managers[i - 1], handed[i - 1], managers[i]));
        if k > 0 {
            lemma_round_robin(0, k, (i - 1) as nat);
            lemma_round_robin(0, k, i as nat);
        }
    } else if k > 0 {
        vstd::arithmetic::div_mod::lemma_small_mod(0, k as nat);
    }
    if i < handed.len() {
        assert(turn_taken(managers[i], handed[i], managers[i + 1]));
    }
}

/// Where the turn stands after `n` turns from position `p` among `k` cores.
pub open spec fn turns(p: int, k: int, n: nat) -> int
    decreases n,
{
    if n == 0 {
        p
    } else {
        (turns(p, k, (n - 1) as nat) + 1) % k
    }
}

/// Cores are handed out round robin: `n` turns from position `p` among `k` cores
/// lead to position `(p + n) % k`.
pub proof fn lemma_round_robin(p: int, k: int, n: nat)
    requires
        0 <= p < k,
    ensures
        turns(p, k, n) == (p + n) % k,
    decreases n,
{
    if n == 0 {
        vstd::arithmetic::div_mod::lemma_small_mod(p as nat, k as nat);
    } else {
        lemma_round_robin(p, k, (n - 1) as nat);
        vstd::arithmetic::div_mod::lemma_add_mod_noop(p + n - 1, 1, k);
        if k == 1 {
            assert((p + n) % 1 == 0);
            assert(((p + n - 1) % 1 + 1) % 1 == 0);
        } else {
            vstd::arithmetic::div_mod::lemma_small_mod(1, k as nat);
        }
    }
}

} // verus!
