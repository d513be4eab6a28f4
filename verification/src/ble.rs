//! BLE HID (HID over GATT) decisions: the connection state shown on the
//! LEDs, what happens to the bond on each connection event, and the client
//! configuration kept with it.
//!
//! Only the left half may be the BLE master; if USB is enumerated within
//! the start-up grace period, BLE is not started. Pairing is Just Works;
//! one bonded host is kept.
use vstd::prelude::*;

use crate::assoc::{assoc, lookup_u16};
use crate::keymap::Hand;

verus! {

// Connection states (shown by the status LEDs).
pub const BLE_OFF: u8 = 0;
pub const BLE_ADVERTISING: u8 = 1;
/// Connected, waiting for pairing or subscription.
pub const BLE_CONNECTED: u8 = 2;
/// Paired (encrypted).
pub const BLE_PAIRED: u8 = 3;
/// The last pairing failed (kept for a while after the disconnection).
pub const BLE_PAIR_FAILED: u8 = 4;
/// A pass key was asked for (not expected with no input and no output).
pub const BLE_PAIR_STUCK: u8 = 5;
/// The security request could not be sent.
pub const BLE_SECURITY_REQUEST_FAILED: u8 = 6;
/// Disconnected by the host.
pub const BLE_DISCONNECTED_REMOTE: u8 = 7;
/// Disconnected for authentication or key reasons.
pub const BLE_DISCONNECTED_AUTH: u8 = 8;
/// Disconnected by a timeout.
pub const BLE_DISCONNECTED_TIMEOUT: u8 = 9;
/// Disconnected for another reason.
pub const BLE_DISCONNECTED_OTHER: u8 = 10;

// HCI status codes of a disconnection.
pub const STATUS_AUTHENTICATION_FAILURE: u8 = 0x05;
pub const STATUS_PIN_OR_KEY_MISSING: u8 = 0x06;
pub const STATUS_CONN_TIMEOUT: u8 = 0x08;
pub const STATUS_REMOTE_USER_TERMINATED_CONN: u8 = 0x13;
pub const STATUS_LMP_LL_RESPONSE_TIMEOUT: u8 = 0x22;

/// Polls of the USB state before BLE starts, and the time between them.
pub const STARTUP_POLLS: u32 = 30;
pub const STARTUP_POLL_MS: u32 = 100;
/// Time a bonded host gets to start encryption before a new pairing is
/// asked for.
pub const BOND_ENCRYPTION_WAIT_MS: u64 = 2000;
/// Interval of the HID-ready check.
pub const READY_CHECK_MS: u64 = 100;
/// Time a failure state stays shown before advertising again.
pub const FAILURE_LINGER_MS: u32 = 3000;

/// Whether a half may be the BLE master: the left one only.
pub fn ble_role_allowed(hand: Hand) -> (r: bool)
    ensures
        r == (hand == Hand::Left),
{
    match hand {
        Hand::Left => true,
        Hand::Right => false,
    }
}

/// The state shown after a disconnection for an HCI status.
pub open spec fn failure_state_of(reason: u8) -> u8 {
    if reason == STATUS_REMOTE_USER_TERMINATED_CONN {
        BLE_DISCONNECTED_REMOTE
    } else if reason == STATUS_AUTHENTICATION_FAILURE || reason == STATUS_PIN_OR_KEY_MISSING {
        BLE_DISCONNECTED_AUTH
    } else if reason == STATUS_CONN_TIMEOUT || reason == STATUS_LMP_LL_RESPONSE_TIMEOUT {
        BLE_DISCONNECTED_TIMEOUT
    } else {
        BLE_DISCONNECTED_OTHER
    }
}

/// The state shown after a disconnection for an HCI status.
pub fn failure_state_for_disconnect(reason: u8) -> (r: u8)
    ensures
        r == failure_state_of(reason),
{
    if reason == STATUS_REMOTE_USER_TERMINATED_CONN {
        BLE_DISCONNECTED_REMOTE
    } else if reason == STATUS_AUTHENTICATION_FAILURE || reason == STATUS_PIN_OR_KEY_MISSING {
        BLE_DISCONNECTED_AUTH
    } else if reason == STATUS_CONN_TIMEOUT || reason == STATUS_LMP_LL_RESPONSE_TIMEOUT {
        BLE_DISCONNECTED_TIMEOUT
    } else {
        BLE_DISCONNECTED_OTHER
    }
}

/// Whether a state is a failure (kept on the LEDs for a while before
/// advertising again).
pub open spec fn is_failure_of(state: u8) -> bool {
    BLE_PAIR_FAILED <= state && state <= BLE_DISCONNECTED_OTHER
}

/// Whether a state is a failure.
pub fn is_failure_state(state: u8) -> (r: bool)
    ensures
        r == is_failure_of(state),
{
    state == BLE_PAIR_FAILED || state == BLE_PAIR_STUCK || state == BLE_SECURITY_REQUEST_FAILED
        || state == BLE_DISCONNECTED_REMOTE || state == BLE_DISCONNECTED_AUTH || state
        == BLE_DISCONNECTED_TIMEOUT || state == BLE_DISCONNECTED_OTHER
}

/// A static random address from random bytes: the two top bits of the last
/// byte set.
pub fn static_random_address(bytes: [u8; 6]) -> (r: [u8; 6])
    ensures
        r@ == bytes@.update(5, ((bytes@[5] & 0x3f) | 0xc0) as u8),
{
    let mut r = bytes;
    r[5] = (bytes[5] & 0x3f) | 0xc0;
    r
}

/// The on-board LED of the Pico W for a state: the new level and the time
/// to the next step. Advertising blinks slowly, connected blinks fast, a
/// failure blinks very fast, a pass key request blinks at a middle pace,
/// paired is lit, anything else is dark.
pub open spec fn wl_led_of(state: u8, on: bool) -> (bool, u32) {
    if state == BLE_ADVERTISING {
        (!on, 500)
    } else if state == BLE_CONNECTED {
        (!on, 150)
    } else if state == BLE_PAIR_STUCK {
        (!on, 300)
    } else if is_failure_of(state) {
        (!on, 60)
    } else if state == BLE_PAIRED {
        (true, 200)
    } else {
        (false, 200)
    }
}

/// One step of the on-board LED.
pub fn wl_led_step(state: u8, on: bool) -> (r: (bool, u32))
    ensures
        r == wl_led_of(state, on),
{
    if state == BLE_ADVERTISING {
        (!on, 500)
    } else if state == BLE_CONNECTED {
        (!on, 150)
    } else if state == BLE_PAIR_STUCK {
        (!on, 300)
    } else if is_failure_state(state) {
        (!on, 60)
    } else if state == BLE_PAIRED {
        (true, 200)
    } else {
        (false, 200)
    }
}

// ---------------------------------------------------------------------
// Client configuration (CCCD) of the bonded host
// ---------------------------------------------------------------------

/// The configuration value of a handle in a table of (handle, value); 0
/// for no handle or a handle not in the table.
pub open spec fn cccd_value_of(table: Seq<(u16, u16)>, handle: Option<u16>) -> u16 {
    match handle {
        Some(h) => match assoc(table, h) {
            Some(v) => v,
            None => 0,
        },
        None => 0,
    }
}

/// The configuration value of a handle.
pub fn cccd_value(table: &[(u16, u16)], handle: Option<u16>) -> (r: u16)
    ensures
        r == cccd_value_of(table@, handle),
{
    match handle {
        Some(h) => match lookup_u16(table, h) {
            Some(v) => v,
            None => 0,
        },
        None => 0,
    }
}

/// The configuration values of the input report, the boot input report and
/// the battery level.
pub fn current_cccd(table: &[(u16, u16)], handles: [Option<u16>; 3]) -> (r: [u16; 3])
    ensures
        r@ == seq![
            cccd_value_of(table@, handles@[0]),
            cccd_value_of(table@, handles@[1]),
            cccd_value_of(table@, handles@[2]),
        ],
{
    let r = [cccd_value(table, handles[0]), cccd_value(table, handles[1]), cccd_value(table, handles[2])];
    assert(r@ =~= seq![
        cccd_value_of(table@, handles@[0]),
        cccd_value_of(table@, handles@[1]),
        cccd_value_of(table@, handles@[2]),
    ]);
    r
}

/// The value an entry takes when saved values are restored: the saved value
/// of the last characteristic whose handle it is, or its own.
pub open spec fn restored_of(e: (u16, u16), handles: Seq<Option<u16>>, saved: Seq<u16>) -> (u16, u16) {
    if handles[2] == Some(e.0) {
        (e.0, saved[2])
    } else if handles[1] == Some(e.0) {
        (e.0, saved[1])
    } else if handles[0] == Some(e.0) {
        (e.0, saved[0])
    } else {
        e
    }
}

/// Restores saved configuration values into a table: every entry of a
/// characteristic's handle takes its saved value.
pub fn restore_cccd(table: &mut Vec<(u16, u16)>, handles: [Option<u16>; 3], saved: [u16; 3])
    ensures
        final(table)@.len() == old(table)@.len(),
        forall|i: int|
            0 <= i < old(table)@.len() ==> #[trigger] final(table)@[i] == restored_of(
                old(table)@[i],
                handles@,
                saved@,
            ),
{
    let mut j: usize = 0;
    while j < 3
        invariant
            j <= 3,
            table@.len() == old(table)@.len(),
            forall|k: int| 0 <= k < table@.len() ==> #[trigger] table@[k].0 == old(table)@[k].0,
            forall|i: int|
                0 <= i < table@.len() ==> #[trigger] table@[i] == restored_upto(
                    old(table)@[i],
                    handles@,
                    saved@,
                    j as int,
                ),
        decreases 3 - j,
    {
        if let Some(h) = handles[j] {
            let mut i: usize = 0;
            while i < table.len()
                invariant
                    j < 3,
                    handles@[j as int] == Some(h),
                    i <= table@.len(),
                    table@.len() == old(table)@.len(),
                    forall|k: int| 0 <= k < table@.len() ==> #[trigger] table@[k].0 == old(table)@[k].0,
                    forall|k: int|
                        0 <= k < i ==> #[trigger] table@[k] == restored_upto(
                            old(table)@[k],
                            handles@,
                            saved@,
                            j + 1,
                        ),
                    forall|k: int|
                        i <= k < table@.len() ==> #[trigger] table@[k] == restored_upto(
                            old(table)@[k],
                            handles@,
                            saved@,
                            j as int,
                        ),
                decreases table@.len() - i,
            {
                let (eh, ev) = table[i];
                assert(restored_upto(old(table)@[i as int], handles@, saved@, j + 1) == (if handles@[j as int]
                    == Some(old(table)@[i as int].0) {
                    (old(table)@[i as int].0, saved@[j as int])
                } else {
                    restored_upto(old(table)@[i as int], handles@, saved@, j as int)
                }));
                if eh == h {
                    table.set(i, (eh, saved[j]));
                }
                i += 1;
            }
        } else {
            assert forall|i: int| 0 <= i < table@.len() implies #[trigger] table@[i] == restored_upto(
                old(table)@[i],
                handles@,
                saved@,
                j + 1,
            ) by {}
        }
        j += 1;
    }
    assert forall|i: int| 0 <= i < old(table)@.len() implies #[trigger] table@[i] == restored_of(
        old(table)@[i],
        handles@,
        saved@,
    ) by {
        reveal_with_fuel(restored_upto, 4);
    }
}

/// An entry after restoring the first `n` characteristics.
pub open spec fn restored_upto(e: (u16, u16), handles: Seq<Option<u16>>, saved: Seq<u16>, n: int) -> (u16, u16)
    decreases n,
{
    if n <= 0 {
        e
    } else {
        let prev = restored_upto(e, handles, saved, n - 1);
        if handles[n - 1] == Some(e.0) {
            (e.0, saved[n - 1])
        } else {
            prev
        }
    }
}

// ---------------------------------------------------------------------
// A connection
// ---------------------------------------------------------------------

/// The state of a BLE connection.
#[derive(Clone, Copy)]
pub struct Session {
    /// The state shown.
    pub state: u8,
    /// Whether the stored bond is the peer's.
    pub bond_matches_peer: bool,
    /// The client configuration last stored with the bond.
    pub saved_cccd: [u16; 3],
    /// When a bonded host that has not started encryption gets a new
    /// pairing request (ms), if armed.
    pub fallback_at: Option<u64>,
    /// When the HID-ready check runs next (ms), if scheduled.
    pub check_at: Option<u64>,
}

/// What happened on a connection.
#[derive(Clone, Copy)]
pub enum BleEvent {
    /// The connection ended with an HCI status. Also: whether the link was
    /// encrypted, whether the stack holds a bond of the peer, and the peer's
    /// client configuration.
    Disconnected { reason: u8, encrypted: bool, peer_bond_stored: bool, cccd: [u16; 3] },
    /// A GATT request was answered (same facts as above).
    Gatt { encrypted: bool, peer_bond_stored: bool, cccd: [u16; 3] },
    /// Pairing completed, with or without a bond to keep.
    PairingComplete { has_bond: bool, cccd: [u16; 3] },
    /// Pairing failed.
    PairingFailed,
    /// A pass key was to be shown, confirmed or entered.
    PassKey,
    /// A keyboard report is to be sent.
    Report { encrypted: bool, report: [u8; 8] },
    /// The HID-ready check is due.
    ReadyCheck { encrypted: bool },
    /// Anything else (connection parameter requests are accepted as they are).
    Other,
}

/// What to do for a connection event.
#[derive(Clone, Copy)]
pub enum BleAction {
    /// Forget the bonds the host stack holds.
    RemoveBonds,
    /// Erase the stored bond.
    EraseStoredBond,
    /// Give the stack's bond of the peer, with this configuration, to the store.
    StorePeerBond([u16; 3]),
    /// Give the bond the pairing produced, with this configuration, to the
    /// store, and add it to the stack.
    StoreNewBond([u16; 3]),
    /// Restore the stored client configuration on the connection.
    RestoreCccd,
    /// Ask the peer to start security; when `report_failure`, a failure to
    /// send is reported back with `security_request_failed`.
    RequestSecurity { report_failure: bool },
    /// Cancel the pass key exchange.
    CancelPassKey,
    /// Notify the report on the input report and boot input characteristics.
    Notify([u8; 8]),
    /// The connection is over.
    End,
}

/// Whether the HID link is ready: encrypted with the stored bond's host.
pub open spec fn ready_of(s: Session, encrypted: bool) -> bool {
    encrypted && s.bond_matches_peer
}

/// The state after a readiness check: paired when ready.
pub open spec fn after_ready(s: Session, encrypted: bool) -> Session {
    if ready_of(s, encrypted) {
        Session { state: BLE_PAIRED, ..s }
    } else {
        s
    }
}

/// A new connection: whether the stack holds bonds, and whether one is the
/// peer's. Bonds of another host are forgotten and erased; the stored
/// configuration is restored for the bonded host, which gets time to start
/// encryption; another host is asked to start security.
pub open spec fn connect_of(has_bonds: bool, matches: bool, now: u64, cccd: [u16; 3]) -> (Session, Seq<BleAction>) {
    let s = Session {
        state: BLE_CONNECTED,
        bond_matches_peer: matches,
        saved_cccd: cccd,
        fallback_at: if matches {
            Some((now + BOND_ENCRYPTION_WAIT_MS) as u64)
        } else {
            None
        },
        check_at: Some((now + READY_CHECK_MS) as u64),
    };
    let a = if has_bonds && !matches {
        seq![BleAction::RemoveBonds, BleAction::EraseStoredBond]
    } else {
        Seq::empty()
    };
    (s, if matches {
        a.push(BleAction::RestoreCccd)
    } else {
        a.push(BleAction::RequestSecurity { report_failure: true })
    })
}

/// One connection event at `now` (ms).
pub open spec fn step_of(s: Session, e: BleEvent, now: u64) -> (Session, Seq<BleAction>) {
    match e {
        BleEvent::Disconnected { reason, encrypted, peer_bond_stored, cccd } => {
            if encrypted && s.bond_matches_peer {
                if cccd@ != s.saved_cccd@ && peer_bond_stored {
                    (s, seq![BleAction::StorePeerBond(cccd), BleAction::End])
                } else {
                    (s, seq![BleAction::End])
                }
            } else {
                (
                    Session { state: failure_state_of(reason), ..s },
                    seq![BleAction::RemoveBonds, BleAction::EraseStoredBond, BleAction::End],
                )
            }
        },
        BleEvent::Gatt { encrypted, peer_bond_stored, cccd } => {
            let s1 = after_ready(s, encrypted);
            if ready_of(s, encrypted) && cccd@ != s.saved_cccd@ && peer_bond_stored {
                (Session { saved_cccd: cccd, ..s1 }, seq![BleAction::StorePeerBond(cccd)])
            } else {
                (s1, Seq::empty())
            }
        },
        BleEvent::PairingComplete { has_bond, cccd } => {
            if has_bond {
                (
                    Session { state: BLE_PAIRED, saved_cccd: cccd, bond_matches_peer: true, ..s },
                    seq![BleAction::RemoveBonds, BleAction::StoreNewBond(cccd)],
                )
            } else {
                (Session { state: BLE_PAIRED, ..s }, seq![BleAction::RemoveBonds])
            }
        },
        BleEvent::PairingFailed => (
            Session { state: BLE_PAIR_FAILED, ..s },
            seq![BleAction::RemoveBonds, BleAction::EraseStoredBond],
        ),
        BleEvent::PassKey => (Session { state: BLE_PAIR_STUCK, ..s }, seq![BleAction::CancelPassKey]),
        BleEvent::Report { encrypted, report } => (
            after_ready(s, encrypted),
            seq![BleAction::Notify(report)],
        ),
        BleEvent::ReadyCheck { encrypted } => {
            if ready_of(s, encrypted) {
                (Session { state: BLE_PAIRED, fallback_at: None, check_at: None, ..s }, Seq::empty())
            } else if s.bond_matches_peer && (s.fallback_at matches Some(t) && now >= t) {
                (
                    Session {
                        bond_matches_peer: false,
                        fallback_at: None,
                        check_at: Some((now + READY_CHECK_MS) as u64),
                        ..s
                    },
                    seq![
                        BleAction::RemoveBonds,
                        BleAction::EraseStoredBond,
                        BleAction::RequestSecurity { report_failure: false },
                    ],
                )
            } else {
                (Session { check_at: Some((now + READY_CHECK_MS) as u64), ..s }, Seq::empty())
            }
        },
        BleEvent::Other => (s, Seq::empty()),
    }
}

fn same_cccd(a: [u16; 3], b: [u16; 3]) -> (r: bool)
    ensures
        r == (a@ == b@),
{
    let r = a[0] == b[0] && a[1] == b[1] && a[2] == b[2];
    proof {
        if r {
            assert(a@ =~= b@);
        } else if a@ == b@ {
            assert(a@[0] == b@[0] && a@[1] == b@[1] && a@[2] == b@[2]);
        }
    }
    r
}

impl Session {
    /// Starts a connection (see `connect_of`).
    pub fn connect(has_bonds: bool, matches: bool, now: u64, cccd: [u16; 3]) -> (r: (Session, Vec<BleAction>))
        requires
            now <= u64::MAX - BOND_ENCRYPTION_WAIT_MS,
        ensures
            (r.0, r.1@) == connect_of(has_bonds, matches, now, cccd),
    {
        let s = Session {
            state: BLE_CONNECTED,
            bond_matches_peer: matches,
            saved_cccd: cccd,
            fallback_at: if matches {
                Some(now + BOND_ENCRYPTION_WAIT_MS)
            } else {
                None
            },
            check_at: Some(now + READY_CHECK_MS),
        };
        let mut a: Vec<BleAction> = Vec::new();
        if has_bonds && !matches {
            a.push(BleAction::RemoveBonds);
            a.push(BleAction::EraseStoredBond);
        }
        if matches {
            a.push(BleAction::RestoreCccd);
        } else {
            a.push(BleAction::RequestSecurity { report_failure: true });
        }
        proof {
            let want = connect_of(has_bonds, matches, now, cccd).1;
            assert(a@ =~= want);
        }
        (s, a)
    }

    /// The security request of a new connection could not be sent: paired
    /// if the link is encrypted anyway, else the failure is shown.
    pub fn security_request_failed(&mut self, encrypted: bool)
        ensures
            *final(self) == (Session {
                state: if encrypted {
                    BLE_PAIRED
                } else {
                    BLE_SECURITY_REQUEST_FAILED
                },
                ..*old(self)
            }),
    {
        self.state = if encrypted {
            BLE_PAIRED
        } else {
            BLE_SECURITY_REQUEST_FAILED
        };
    }

    /// Handles one connection event at `now` (ms).
    pub fn step(&mut self, e: BleEvent, now: u64) -> (r: Vec<BleAction>)
        requires
            now <= u64::MAX - READY_CHECK_MS,
        ensures
            (*final(self), r@) == step_of(*old(self), e, now),
    {
        let mut a: Vec<BleAction> = Vec::new();
        match e {
            BleEvent::Disconnected { reason, encrypted, peer_bond_stored, cccd } => {
                if encrypted && self.bond_matches_peer {
                    if !same_cccd(cccd, self.saved_cccd) && peer_bond_stored {
                        a.push(BleAction::StorePeerBond(cccd));
                    }
                } else {
                    self.state = failure_state_for_disconnect(reason);
                    a.push(BleAction::RemoveBonds);
                    a.push(BleAction::EraseStoredBond);
                }
                a.push(BleAction::End);
            },
            BleEvent::Gatt { encrypted, peer_bond_stored, cccd } => {
                let ready = encrypted && self.bond_matches_peer;
                if ready {
                    self.state = BLE_PAIRED;
                    if !same_cccd(cccd, self.saved_cccd) && peer_bond_stored {
                        a.push(BleAction::StorePeerBond(cccd));
                        self.saved_cccd = cccd;
                    }
                }
            },
            BleEvent::PairingComplete { has_bond, cccd } => {
                a.push(BleAction::RemoveBonds);
                if has_bond {
                    a.push(BleAction::StoreNewBond(cccd));
                    self.saved_cccd = cccd;
                    self.bond_matches_peer = true;
                }
                self.state = BLE_PAIRED;
            },
            BleEvent::PairingFailed => {
                a.push(BleAction::RemoveBonds);
                a.push(BleAction::EraseStoredBond);
                self.state = BLE_PAIR_FAILED;
            },
            BleEvent::PassKey => {
                self.state = BLE_PAIR_STUCK;
                a.push(BleAction::CancelPassKey);
            },
            BleEvent::Report { encrypted, report } => {
                if encrypted && self.bond_matches_peer {
                    self.state = BLE_PAIRED;
                }
                a.push(BleAction::Notify(report));
            },
            BleEvent::ReadyCheck { encrypted } => {
                if encrypted && self.bond_matches_peer {
                    self.state = BLE_PAIRED;
                    self.fallback_at = None;
                    self.check_at = None;
                } else {
                    let due = match self.fallback_at {
                        Some(t) => now >= t,
                        None => false,
                    };
                    if self.bond_matches_peer && due {
                        a.push(BleAction::RemoveBonds);
                        a.push(BleAction::EraseStoredBond);
                        self.bond_matches_peer = false;
                        self.fallback_at = None;
                        a.push(BleAction::RequestSecurity { report_failure: false });
                    }
                    self.check_at = Some(now + READY_CHECK_MS);
                }
            },
            BleEvent::Other => {},
        }
        proof {
            let want = step_of(*old(self), e, now).1;
            assert(a@ =~= want);
        }
        a
    }
}

/// A connection event that ends the connection ends with `End`, and only
/// disconnections do: every other event keeps the connection.
pub proof fn lemma_only_disconnect_ends(s: Session, e: BleEvent, now: u64)
    ensures
        step_of(s, e, now).1.contains(BleAction::End) <==> e is Disconnected,
{
    let a = step_of(s, e, now).1;
    if e is Disconnected {
        assert(a.last() == BleAction::End);
    } else {
        assert forall|i: int| 0 <= i < a.len() implies a[i] != BleAction::End by {}
    }
}

/// Any failed pairing leaves no bond: the stack's bonds are forgotten and
/// the stored one is erased, and the failure is shown.
pub proof fn lemma_pairing_failure_forgets(s: Session, now: u64)
    ensures
        step_of(s, BleEvent::PairingFailed, now).1 == seq![BleAction::RemoveBonds, BleAction::EraseStoredBond],
        step_of(s, BleEvent::PairingFailed, now).0.state == BLE_PAIR_FAILED,
        is_failure_of(step_of(s, BleEvent::PairingFailed, now).0.state),
{
}

} // verus!
