//! Which requests can drop Saved work: `update-ref -d` on a ref under the
//! Saved work prefix. A restore drops its Saved work only once the apply has
//! consumed it; everything else it does keeps every Saved work ref.
use vstd::prelude::*;

use crate::host::{is_read, reads_only, Effect};
use crate::recording::oplog::{began_with, finished_log, read_log, OperationRecordView};
use crate::text::starts_with_spec;

use super::state::wip_prefix;

verus! {

/// A command that deletes a ref under the Saved work prefix.
pub open spec fn drops_saved_work(effect: Effect) -> bool {
    match effect {
        Effect::Run { args, writes } => writes && args.len() >= 5 && args[0] == "update-ref"@
            && args[1] == "-d"@ && starts_with_spec(args[4], wip_prefix()),
        _ => false,
    }
}

/// `after` extends `before`, and nothing asked in between drops Saved work.
pub open spec fn keeps_saved_work(before: Seq<Effect>, after: Seq<Effect>) -> bool {
    &&& before.len() <= after.len()
    &&& after.take(before.len() as int) == before
    &&& forall|i: int| before.len() <= i < after.len() ==> !drops_saved_work(#[trigger] after[i])
}

/// Some request made between `before` and `after` drops Saved work.
pub open spec fn dropped_saved_work(before: Seq<Effect>, after: Seq<Effect>) -> bool {
    exists|i: int| before.len() <= i < after.len() && drops_saved_work(#[trigger] after[i])
}

pub proof fn lemma_keeps_one(a: Seq<Effect>, e: Effect)
    requires
        !drops_saved_work(e),
    ensures
        keeps_saved_work(a, a.push(e)),
{
    assert(a.push(e).take(a.len() as int) =~= a);
}

pub proof fn lemma_keeps_chain(a: Seq<Effect>, b: Seq<Effect>, c: Seq<Effect>)
    requires
        keeps_saved_work(a, b),
        keeps_saved_work(b, c),
    ensures
        keeps_saved_work(a, c),
{
    assert(c.take(a.len() as int) =~= b.take(a.len() as int)) by {
        assert forall|i: int| 0 <= i < a.len() implies c.take(a.len() as int)[i] == b.take(
            a.len() as int,
        )[i] by {
            assert(c[i] == c.take(b.len() as int)[i]);
        }
    }
    assert forall|i: int| a.len() <= i < c.len() implies !drops_saved_work(#[trigger] c[i]) by {
        if i < b.len() {
            assert(c[i] == c.take(b.len() as int)[i]);
        }
    }
}

/// Reading only keeps Saved work.
pub proof fn lemma_reads_keep(a: Seq<Effect>, b: Seq<Effect>)
    requires
        reads_only(a, b),
    ensures
        keeps_saved_work(a, b),
{
    assert forall|i: int| a.len() <= i < b.len() implies !drops_saved_work(#[trigger] b[i]) by {
        assert(is_read(b[i]));
    }
}

/// Reading the log keeps Saved work.
pub proof fn lemma_read_log_keeps(a: Seq<Effect>, b: Seq<Effect>, path: Seq<char>, records: Seq<OperationRecordView>)
    requires
        read_log(a, b, path, records),
    ensures
        keeps_saved_work(a, b),
{
    if b == a.push(Effect::Exists { path, found: false }) {
        lemma_keeps_one(a, Effect::Exists { path, found: false });
    } else {
        let m = a.push(Effect::Exists { path, found: true });
        lemma_keeps_one(a, Effect::Exists { path, found: true });
        lemma_keeps_one(m, Effect::Load { path, loaded: Some(records) });
        lemma_keeps_chain(a, m, b);
    }
}

/// Beginning an operation's record keeps Saved work.
pub proof fn lemma_began_keeps(
    a: Seq<Effect>,
    b: Seq<Effect>,
    path: Seq<char>,
    started: Seq<char>,
    pid: nat,
    record: OperationRecordView,
)
    requires
        began_with(a, b, path, started, pid, record),
    ensures
        keeps_saved_work(a, b),
{
    let (mid, loaded) = choose|mid: Seq<Effect>, loaded: Seq<OperationRecordView>|
        read_log(
            a.push(Effect::Clock { time: started }).push(Effect::ProcessId { id: pid }),
            mid,
            path,
            loaded,
        ) && b == mid.push(Effect::Store { path, records: loaded.push(record) });
    let a1 = a.push(Effect::Clock { time: started });
    let a2 = a1.push(Effect::ProcessId { id: pid });
    lemma_keeps_one(a, Effect::Clock { time: started });
    lemma_keeps_one(a1, Effect::ProcessId { id: pid });
    lemma_keeps_chain(a, a1, a2);
    lemma_read_log_keeps(a2, mid, path, loaded);
    lemma_keeps_chain(a, a2, mid);
    lemma_keeps_one(mid, Effect::Store { path, records: loaded.push(record) });
    lemma_keeps_chain(a, mid, b);
}

/// Marking a record finished keeps Saved work.
pub proof fn lemma_finished_keeps(
    a: Seq<Effect>,
    b: Seq<Effect>,
    path: Seq<char>,
    id: Seq<char>,
    after: Map<Seq<char>, Seq<char>>,
)
    requires
        exists|mid: Seq<Effect>, loaded: Seq<OperationRecordView>, when: Seq<char>|
            read_log(a, mid, path, loaded) && b == mid.push(Effect::Clock { time: when }).push(
                Effect::Store { path, records: finished_log(loaded, id, when, after) },
            ),
    ensures
        keeps_saved_work(a, b),
{
    let (mid, loaded, when) = choose|mid: Seq<Effect>, loaded: Seq<OperationRecordView>, when: Seq<char>|
        read_log(a, mid, path, loaded) && b == mid.push(Effect::Clock { time: when }).push(
            Effect::Store { path, records: finished_log(loaded, id, when, after) },
        );
    lemma_read_log_keeps(a, mid, path, loaded);
    let m1 = mid.push(Effect::Clock { time: when });
    lemma_keeps_one(mid, Effect::Clock { time: when });
    lemma_keeps_chain(a, mid, m1);
    lemma_keeps_one(m1, Effect::Store { path, records: finished_log(loaded, id, when, after) });
    lemma_keeps_chain(a, m1, b);
}

} // verus!
