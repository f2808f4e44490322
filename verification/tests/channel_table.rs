use roomrtc::protocols::data_channel::{ChannelState, ChannelTable};

#[test]
fn stream_ids_follow_the_role() {
    let mut a = ChannelTable::new(true);
    assert_eq!(a.create_channel("f1".to_string()), Ok(0));
    assert_eq!(a.create_channel("f2".to_string()), Ok(2));
    let mut b = ChannelTable::new(false);
    assert_eq!(b.create_channel("g".to_string()), Ok(1));
    assert_eq!(b.create_channel("h".to_string()), Ok(3));
    assert_eq!(b.channels[&3].label, "h");
    assert_eq!(b.channels[&3].state, ChannelState::Connecting);
}

#[test]
fn stream_ids_run_out() {
    let mut a = ChannelTable::new(false);
    a.next_stream_id = 65533;
    assert_eq!(a.create_channel("x".to_string()), Ok(65533));
    assert_eq!(a.next_stream_id, 65535);
    assert_eq!(a.create_channel("y".to_string()), Err("No hay stream IDs disponibles".to_string()));
    let mut b = ChannelTable::new(true);
    b.next_stream_id = 65534;
    assert_eq!(b.create_channel("z".to_string()), Ok(65534));
    assert_eq!(b.next_stream_id, 65535);
    assert!(b.create_channel("w".to_string()).is_err());
}

#[test]
fn channel_states_follow_the_association() {
    let mut t = ChannelTable::new(true);
    t.create_channel("a".to_string()).unwrap();
    t.create_channel("b".to_string()).unwrap();
    t.close_stream(2);
    t.close_stream(40);
    t.on_connected();
    assert_eq!(t.channels[&0].state, ChannelState::Open);
    assert_eq!(t.channels[&2].state, ChannelState::Closed);
    t.on_association_lost();
    assert_eq!(t.channels[&0].state, ChannelState::Closed);
    t.create_channel("c".to_string()).unwrap();
    t.close_all_streams();
    assert!(t.channels.values().all(|c| c.state == ChannelState::Closed));
    assert_eq!(t.channels.len(), 3);
    t.shutdown();
    assert!(t.channels.is_empty());
}

#[test]
fn received_data_is_taken_in_order() {
    let mut t = ChannelTable::new(false);
    t.on_data(3, vec![1, 2]);
    t.on_data(5, vec![3]);
    t.on_data(3, vec![4]);
    assert_eq!(t.poll_file_data(), vec![(3, vec![1, 2]), (5, vec![3]), (3, vec![4])]);
    assert!(t.poll_file_data().is_empty());
    t.note_open_stream(7);
    t.note_open_stream(9);
    t.note_open_stream(7);
    let mut open = t.get_open_streams();
    open.sort();
    assert_eq!(open, vec![7, 9]);
}
