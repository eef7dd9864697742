//! End-to-end dispatch scenarios: registry lifecycle, fan-out, replies,
//! and the exact bytes on the wire.

use chat_relay::MAX_CLIENTS;
use chat_relay::MAX_NAME_LEN;
use chat_relay::commands::ClientLeavedError;
use chat_relay::commands::OutMsg;
use chat_relay::commands::get_client_name_at_position_i;
use chat_relay::commands::handle_commands;
use chat_relay::commands::is_user_registered;
use chat_relay::registry::Registry;
use chat_relay::registry::padded_name;

/// A name as the registry stores it: truncated and zero-padded.
fn padded(name: &str) -> Vec<u8> {
    let mut v = name.as_bytes().to_vec();
    v.truncate(MAX_NAME_LEN);
    while v.len() < MAX_NAME_LEN {
        v.push(0);
    }
    v
}

/// A registry with three occupied slots (connections 100, 101, 102).
fn three_clients() -> Registry {
    let mut reg = Registry::new(MAX_CLIENTS);
    assert_eq!(reg.allocate(100).unwrap(), 0);
    assert_eq!(reg.allocate(101).unwrap(), 1);
    assert_eq!(reg.allocate(102).unwrap(), 2);
    reg
}

fn models(msgs: &[OutMsg]) -> Vec<(usize, u64, Vec<u8>)> {
    msgs.iter().map(|m| (m.slot, m.conn, m.bytes.clone())).collect()
}

#[test]
fn padded_name_truncates_and_pads() {
    assert_eq!(padded_name(b"Alice"), padded("Alice"));
    assert_eq!(padded_name(b"").len(), MAX_NAME_LEN);
    let long = b"AVeryLongNameThatExceedsTheLimit";
    assert_eq!(padded_name(long), long[..MAX_NAME_LEN].to_vec());
}

#[test]
fn allocation_is_first_fit() {
    let mut reg = Registry::new(4);
    assert_eq!(reg.allocate(10).unwrap(), 0);
    assert_eq!(reg.allocate(11).unwrap(), 1);
    assert_eq!(reg.allocate(12).unwrap(), 2);
    assert_eq!(reg.release(1), Some(11));
    // slot 0 occupied, slot 1 free again: first fit takes 1
    assert_eq!(reg.allocate(13).unwrap(), 1);
}

#[test]
fn full_registry_refuses_allocation() {
    let mut reg = Registry::new(MAX_CLIENTS);
    for i in 0..MAX_CLIENTS {
        assert_eq!(reg.allocate(i as u64).unwrap(), i);
    }
    assert!(reg.allocate(999).is_err());
    // one release makes exactly that slot available again
    reg.release(7);
    assert_eq!(reg.allocate(999).unwrap(), 7);
}

#[test]
fn release_is_idempotent() {
    let mut reg = three_clients();
    assert_eq!(reg.release(2), Some(102));
    assert_eq!(reg.release(2), None);
    assert!(!reg.is_registered(2));
}

#[test]
fn join_registers_and_notifies_others() {
    let mut reg = three_clients();
    let (msgs, closed, fate) = handle_commands(b"JOIN Bob\n", 1, &mut reg);
    assert!(fate.is_ok());
    assert_eq!(closed, None);
    assert_eq!(reg.lookup_name(1), Some(padded("Bob")));
    // slots 0 and 2 are occupied but unregistered: nobody is notified
    assert!(msgs.is_empty());

    let (msgs, _, fate) = handle_commands(b"JOIN Alice\n", 0, &mut reg);
    assert!(fate.is_ok());
    let mut notice = padded("Alice");
    notice.extend_from_slice(b" has joined the chat\n");
    // only Bob, the sole other registered client, is notified
    assert_eq!(models(&msgs), vec![(1, 101, notice)]);
}

#[test]
fn join_without_name_is_a_no_op() {
    let mut reg = three_clients();
    let (msgs, _, fate) = handle_commands(b"JOIN\n", 0, &mut reg);
    assert!(fate.is_ok());
    assert!(msgs.is_empty());
    assert_eq!(reg.lookup_name(0), None);
}

#[test]
fn second_join_is_silently_ignored() {
    let mut reg = three_clients();
    handle_commands(b"JOIN Alice\n", 0, &mut reg);
    let (msgs, _, fate) = handle_commands(b"JOIN Carol\n", 0, &mut reg);
    assert!(fate.is_ok());
    assert!(msgs.is_empty());
    assert_eq!(reg.lookup_name(0), Some(padded("Alice")));
}

#[test]
fn who_lists_own_name_exactly_once() {
    let mut reg = three_clients();
    handle_commands(b"JOIN Alice\n", 0, &mut reg);
    handle_commands(b"JOIN Bob\n", 1, &mut reg);
    let (msgs, _, fate) = handle_commands(b"WHO", 0, &mut reg);
    assert!(fate.is_ok());
    // one line per registered slot, in slot order, all to the asker
    let mut alice_line = padded("Alice");
    alice_line.push(b'\n');
    let mut bob_line = padded("Bob");
    bob_line.push(b'\n');
    assert_eq!(models(&msgs), vec![(0, 100, alice_line.clone()), (0, 100, bob_line)]);
    let own = msgs.iter().filter(|m| m.bytes == alice_line).count();
    assert_eq!(own, 1);
}

#[test]
fn chat_reaches_exactly_the_other_registered_clients() {
    let mut reg = three_clients();
    handle_commands(b"JOIN Alice\n", 0, &mut reg);
    handle_commands(b"JOIN Bob\n", 1, &mut reg);
    let (msgs, closed, fate) = handle_commands(b"hello", 0, &mut reg);
    assert!(fate.is_ok());
    assert_eq!(closed, None);
    // Bob alone receives it; the sender and the unregistered slot 2 do not
    let mut line = b"[".to_vec();
    line.extend_from_slice(&padded("Alice"));
    line.extend_from_slice(b"] ");
    line.extend_from_slice(b"hello");
    assert_eq!(models(&msgs), vec![(1, 101, line)]);
}

#[test]
fn leave_notifies_once_and_frees_the_slot() {
    let mut reg = three_clients();
    handle_commands(b"JOIN Alice\n", 0, &mut reg);
    handle_commands(b"JOIN Bob\n", 1, &mut reg);
    handle_commands(b"JOIN Carol\n", 2, &mut reg);
    let (msgs, closed, fate) = handle_commands(b"LEAVE", 1, &mut reg);
    // exactly one notice to each other registered client
    let mut notice = padded("Bob");
    notice.extend_from_slice(b" has left the chat\n");
    assert_eq!(models(&msgs), vec![(0, 100, notice.clone()), (2, 102, notice)]);
    // the transport must be closed and the session terminated
    assert_eq!(closed, Some(101));
    let err = fate.unwrap_err();
    assert_eq!(err.details_bytes(), &padded("Bob")[..]);
    // the slot is allocatable again immediately
    assert!(!reg.is_registered(1));
    assert_eq!(reg.allocate(111).unwrap(), 1);
}

#[test]
fn leave_from_unregistered_client_releases_quietly() {
    let mut reg = three_clients();
    let (msgs, closed, fate) = handle_commands(b"LEAVE", 2, &mut reg);
    assert!(msgs.is_empty());
    assert_eq!(closed, Some(102));
    let err = fate.unwrap_err();
    assert_eq!(err.details_bytes(), b"");
}

#[test]
fn unregistered_client_gets_no_reply_and_triggers_no_broadcast() {
    let mut reg = three_clients();
    handle_commands(b"JOIN Alice\n", 0, &mut reg);
    for frame in [&b"WHO"[..], &b"VERSION"[..], &b"just chatting"[..]] {
        let (msgs, closed, fate) = handle_commands(frame, 2, &mut reg);
        assert!(fate.is_ok());
        assert_eq!(closed, None);
        assert!(msgs.is_empty());
    }
}

#[test]
fn version_replies_to_the_asker_alone() {
    let mut reg = three_clients();
    handle_commands(b"JOIN Alice\n", 0, &mut reg);
    handle_commands(b"JOIN Bob\n", 1, &mut reg);
    let (msgs, _, fate) = handle_commands(b"VERSION", 0, &mut reg);
    assert!(fate.is_ok());
    assert_eq!(
        models(&msgs),
        vec![(0, 100, b"Simple Rust Chat Server v0.1\n\n".to_vec())]
    );
}

#[test]
fn registry_invariant_holds_through_a_session() {
    // a name is never observed without its connection, whatever the
    // interleaving of joins and leaves
    let mut reg = Registry::new(4);
    let frames: [&[u8]; 6] = [b"JOIN A\n", b"hi", b"LEAVE", b"JOIN B\n", b"WHO", b"LEAVE"];
    let mut active: Vec<usize> = Vec::new();
    let mut next_conn = 1u64;
    for (step, frame) in frames.iter().enumerate() {
        if active.len() < 2 {
            if let Ok(slot) = reg.allocate(next_conn) {
                next_conn += 1;
                active.push(slot);
            }
        }
        let slot = active[step % active.len()];
        let (_, _, fate) = handle_commands(frame, slot, &mut reg);
        if fate.is_err() {
            active.retain(|s| *s != slot);
        }
        for i in 0..reg.capacity() {
            if reg.is_registered(i) {
                assert!(reg.conn(i).is_some());
            }
        }
    }
}

#[test]
fn snapshot_lists_registered_slots_in_order() {
    let mut reg = three_clients();
    handle_commands(b"JOIN Carol\n", 2, &mut reg);
    handle_commands(b"JOIN Alice\n", 0, &mut reg);
    let entries = reg.registered_entries();
    let got: Vec<(usize, Vec<u8>)> = entries;
    assert_eq!(got, vec![(0, padded("Alice")), (2, padded("Carol"))]);
    assert!(is_user_registered(0, &reg));
    assert!(!is_user_registered(1, &reg));
    assert_eq!(get_client_name_at_position_i(2, &reg), Some(padded("Carol")));
}

#[test]
fn leave_error_carries_its_message() {
    let err = ClientLeavedError::new("gone");
    assert_eq!(err.details_bytes(), b"gone");
}

#[test]
fn dispatch_from_two_slots_never_touches_a_third() {
    let mut reg = three_clients();
    handle_commands(b"JOIN Alice\n", 0, &mut reg);
    handle_commands(b"JOIN Carol\n", 2, &mut reg);
    let before = reg.lookup_name(2);
    handle_commands(b"JOIN Bob\n", 0, &mut reg); // ignored: already registered
    handle_commands(b"hello", 1, &mut reg); // dropped: slot 1 unregistered
    handle_commands(b"LEAVE", 0, &mut reg); // releases slot 0 only
    assert_eq!(reg.lookup_name(2), before);
    assert_eq!(reg.conn(2), Some(102));
}

#[test]
fn frames_padded_with_nul_bytes_still_match_keywords() {
    // a real read leaves the rest of the fixed buffer zeroed; the newline
    // after the keyword delimits the word, the padding changes nothing
    let mut frame = [0u8; 512];
    frame[..4].copy_from_slice(b"WHO\n");
    let mut reg = three_clients();
    handle_commands(b"JOIN Alice\n", 0, &mut reg);
    let (msgs, _, fate) = handle_commands(&frame, 0, &mut reg);
    assert!(fate.is_ok());
    assert_eq!(msgs.len(), 1);
}
