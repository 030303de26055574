use arp_presence::frame::{arp_sender, hw_identity};
use arp_presence::hub::{Cadence, UpdateHub};
use arp_presence::ingest::ingest_frame;
use arp_presence::table::PresenceTable;

fn arp_frame(sender: [u8; 6]) -> Vec<u8> {
    let mut f = Vec::new();
    f.extend_from_slice(&[0xff; 6]);
    f.extend_from_slice(&sender);
    f.extend_from_slice(&[0x08, 0x06]);
    f.extend_from_slice(&[0x00, 0x01, 0x08, 0x00, 6, 4, 0x00, 0x01]);
    f.extend_from_slice(&sender);
    f.extend_from_slice(&[10, 0, 0, 4]);
    f.extend_from_slice(&[0; 6]);
    f.extend_from_slice(&[10, 0, 0, 23]);
    f
}

#[test]
fn identity_of_hw_address() {
    assert_eq!(hw_identity([0x18, 0x1b, 0x53, 0x91, 0x51, 0x18]), 0x181b_5391_5118);
    assert_eq!(hw_identity([0xff; 6]), 0xffff_ffff_ffff);
    assert_eq!(hw_identity([0; 6]), 0);
}

#[test]
fn sender_of_arp_frame() {
    let f = arp_frame([0x18, 0x1b, 0x53, 0x91, 0x51, 0x18]);
    assert_eq!(f.len(), 42);
    assert_eq!(arp_sender(&f), Some(0x181b_5391_5118));
}

#[test]
fn trailing_bytes_are_ignored() {
    let mut f = arp_frame([1, 2, 3, 4, 5, 6]);
    f.extend_from_slice(&[0; 18]);
    assert_eq!(arp_sender(&f), Some(0x0102_0304_0506));
}

#[test]
fn other_ether_type_is_skipped() {
    let mut f = arp_frame([1, 2, 3, 4, 5, 6]);
    f[12] = 0x08;
    f[13] = 0x00;
    assert_eq!(arp_sender(&f), None);
}

#[test]
fn short_frames_are_skipped() {
    let f = arp_frame([1, 2, 3, 4, 5, 6]);
    assert_eq!(arp_sender(&f[..41]), None);
    assert_eq!(arp_sender(&f[..14]), None);
    assert_eq!(arp_sender(&f[..13]), None);
    assert_eq!(arp_sender(&[]), None);
}

#[test]
fn ingest_records_and_notifies() {
    let mut table = PresenceTable::new();
    let mut hub = UpdateHub::new();
    let a = hub.subscribe(Cadence::OnChange, 0).unwrap();
    let _t = hub.subscribe(Cadence::Periodic { interval_ms: 500 }, 0).unwrap();
    let f = arp_frame([0, 0, 0, 0, 0, 7]);
    assert_eq!(ingest_frame(&mut table, &mut hub, &f, 100, 1000), vec![a]);
    assert_eq!(ingest_frame(&mut table, &mut hub, &f, 200, 1000), vec![a]);
    let r = table.get(7).unwrap();
    assert_eq!((r.observation_count, r.last_seen_at, r.classification_mark), (2, 200, 100));
    assert!(hub.take_notification(a));

    let mut other = f.clone();
    other[13] = 0x00;
    assert_eq!(ingest_frame(&mut table, &mut hub, &other, 300, 1000), Vec::<u64>::new());
    assert!(!hub.take_notification(a));
    assert_eq!(table.len(), 1);
}
