//! Transcript renderings of disclosed per-candidate bits.

use vstd::prelude::*;

use crate::rendezvous::{
    decision_views, eligibility_views, Eligibility, OwnerDecision, SpecDecision, SpecEligibility,
};

verus! {

/// `entries` joined by commas.
pub open spec fn comma_joined(entries: Seq<Seq<char>>) -> Seq<char>
    decreases entries.len(),
{
    if entries.len() == 0 {
        Seq::empty()
    } else if entries.len() == 1 {
        entries[0]
    } else {
        comma_joined(entries.drop_last()) + ","@ + entries.last()
    }
}

/// `yes` or `no`.
pub open spec fn yes_no(b: bool) -> Seq<char> {
    if b {
        "yes"@
    } else {
        "no"@
    }
}

/// `id:yes` or `id:no` for one eligibility bit.
pub open spec fn eligibility_entry(e: SpecEligibility) -> Seq<char> {
    e.candidate_id + ":"@ + yes_no(e.available)
}

/// `id:yes` or `id:no` for one owner decision.
pub open spec fn decision_entry(d: SpecDecision) -> Seq<char> {
    d.candidate_id + ":"@ + yes_no(d.accepted)
}

/// Appends `id:yes`/`id:no`, preceded by a comma unless it is the first entry.
fn push_entry(out: &mut String, first: bool, id: &str, bit: bool)
    ensures
        final(out)@ == old(out)@ + (if first {
            Seq::<char>::empty()
        } else {
            ","@
        }) + id@ + ":"@ + yes_no(bit),
{
    let ghost before = out@;
    if !first {
        out.append(",");
    }
    out.append(id);
    out.append(":");
    if bit {
        out.append("yes");
    } else {
        out.append("no");
    }
    assert(out@ =~= before + (if first {
        Seq::<char>::empty()
    } else {
        ","@
    }) + id@ + ":"@ + yes_no(bit));
}

/// Renders eligibility bits as `c1:no,c2:yes,...`, in order.
pub fn format_eligibility(values: &[Eligibility]) -> (s: String)
    ensures
        s@ == comma_joined(
            eligibility_views(values@).map_values(|e: SpecEligibility| eligibility_entry(e)),
        ),
{
    let ghost entries = eligibility_views(values@).map_values(
        |e: SpecEligibility| eligibility_entry(e),
    );
    let mut out = String::new();
    let n = values.len();
    let mut i: usize = 0;
    while i < n
        invariant
            n == values@.len(),
            i <= n,
            entries == eligibility_views(values@).map_values(
                |e: SpecEligibility| eligibility_entry(e),
            ),
            out@ == comma_joined(entries.take(i as int)),
        decreases n - i,
    {
        let v = &values[i];
        push_entry(&mut out, i == 0, v.candidate_id().as_str(), v.is_available());
        assert(entries.take(i + 1).drop_last() =~= entries.take(i as int));
        assert(entries.take(i + 1).last() == entries[i as int]);
        assert(out@ =~= comma_joined(entries.take(i + 1)));
        i = i + 1;
    }
    assert(entries.take(n as int) =~= entries);
    out
}

/// Renders owner decisions as `c2:no,c3:yes,...`, in order.
pub fn format_decisions(values: &[OwnerDecision]) -> (s: String)
    ensures
        s@ == comma_joined(
            decision_views(values@).map_values(|d: SpecDecision| decision_entry(d)),
        ),
{
    let ghost entries = decision_views(values@).map_values(|d: SpecDecision| decision_entry(d));
    let mut out = String::new();
    let n = values.len();
    let mut i: usize = 0;
    while i < n
        invariant
            n == values@.len(),
            i <= n,
            entries == decision_views(values@).map_values(|d: SpecDecision| decision_entry(d)),
            out@ == comma_joined(entries.take(i as int)),
        decreases n - i,
    {
        let v = &values[i];
        push_entry(&mut out, i == 0, v.candidate_id().as_str(), v.is_accepted());
        assert(entries.take(i + 1).drop_last() =~= entries.take(i as int));
        assert(entries.take(i + 1).last() == entries[i as int]);
        assert(out@ =~= comma_joined(entries.take(i + 1)));
        i = i + 1;
    }
    assert(entries.take(n as int) =~= entries);
    out
}

} // verus!
