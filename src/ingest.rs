//! The ingestion step: a captured frame updates the table and notifies the
//! hub's on-change subscribers.

use vstd::prelude::*;
use crate::frame::{arp_sender, arp_sender_of};
use crate::hub::{UpdateHub, Subscription, after_change, change_targets};
use crate::table::{PresenceTable, after_observation};

verus! {

/// Handles one captured `frame` at time `now`: when it carries an
/// address-resolution message, records its sender in `table`, publishes the
/// change on `hub` and returns the subscribers to wake; otherwise changes
/// nothing and returns no one.
pub fn ingest_frame(
    table: &mut PresenceTable,
    hub: &mut UpdateHub,
    frame: &[u8],
    now: u64,
    threshold: u64,
) -> (r: Vec<u64>)
    requires
        old(table).wf(),
        old(hub).wf(),
    ensures
        final(table).wf(),
        final(hub).wf(),
        arp_sender_of(frame@) matches Some(id) ==> ({
            &&& final(table)@ == after_observation(old(table)@, id, now, threshold)
            &&& final(hub)@ == (
                old(hub)@.0.map_values(|s: Subscription| after_change(s)),
                old(hub)@.1,
            )
            &&& r@ == change_targets(old(hub)@.0)
        }),
        arp_sender_of(frame@) is None ==> final(table)@ == old(table)@ && final(hub)@ == old(hub)@
            && r@.len() == 0,
{
    match arp_sender(frame) {
        Some(id) => {
            table.record_observation(id, now, threshold);
            hub.publish_change()
        },
        None => Vec::new(),
    }
}

} // verus!
