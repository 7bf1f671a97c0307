use my_eip_project::server::{cyclic_frame, ServerConfig, ServerState, CONNECTION_TIMEOUT_MS};
use my_eip_project::assembly::AssemblyObject;

fn config() -> ServerConfig {
    ServerConfig {
        input_instance: 100,
        output_instance: 150,
        config_instance: 151,
        input_size: 2,
        output_size: 0x0102,
        config_size: 0,
    }
}

fn forward_open(id: u32, rpi: u32) -> Vec<u8> {
    let mut p = Vec::new();
    p.extend_from_slice(&id.to_le_bytes());
    p.extend_from_slice(&0xAABB_CCDDu32.to_le_bytes());
    p.push(3);
    p.extend_from_slice(&rpi.to_le_bytes());
    p.push(1);
    p.extend_from_slice(&[0, 0]);
    p
}

fn forward_close(id: u32) -> Vec<u8> {
    let mut p = Vec::new();
    p.extend_from_slice(&id.to_le_bytes());
    p.extend_from_slice(&0xAABB_CCDDu32.to_le_bytes());
    p
}

#[test]
fn forward_open_response_bytes() {
    let s: ServerState<&str> = ServerState::new(config());
    assert_eq!(
        s.create_forward_open_response(),
        vec![0xD4, 100, 0, 150, 0, 151, 0, 2, 0, 0x02, 0x01, 0, 0]
    );
}

#[test]
fn forward_open_registers_and_answers() {
    let mut s: ServerState<&str> = ServerState::new(config());
    let reply = s.process_packet(&forward_open(17, 20), "10.0.0.2:5000", 1000);
    assert_eq!(reply, Some(s.create_forward_open_response()));
    assert_eq!(s.connection(17), Some(&"10.0.0.2:5000"));
    assert!(s.start_cyclic_multicast(1019).is_empty());
    assert_eq!(s.start_cyclic_multicast(1020), vec![vec![17, 0, 0, 0, 0, 0, 0, 0]]);
}

#[test]
fn reopening_replaces_the_address() {
    let mut s: ServerState<&str> = ServerState::new(config());
    s.process_packet(&forward_open(17, 20), "a", 0);
    s.process_packet(&forward_open(17, 20), "b", 0);
    assert_eq!(s.connection(17), Some(&"b"));
}

#[test]
fn forward_close_forgets_the_address_but_keeps_the_assembly() {
    let mut s: ServerState<&str> = ServerState::new(config());
    s.process_packet(&forward_open(5, 10), "a", 0);
    let reply = s.process_packet(&forward_close(5), "a", 1);
    assert_eq!(reply, None);
    assert_eq!(s.connection(5), None);
    assert_eq!(s.start_cyclic_multicast(10).len(), 1);
}

#[test]
fn short_packets_change_nothing() {
    let mut s: ServerState<&str> = ServerState::new(config());
    s.process_packet(&forward_open(5, 10), "a", 0);
    assert_eq!(s.process_packet(&[5, 0, 0, 0, 1, 2, 3], "a", 1), None);
    assert_eq!(s.process_packet(&[], "a", 1), None);
    assert_eq!(s.connection(5), Some(&"a"));
}

#[test]
fn any_packet_of_sixteen_bytes_is_a_forward_open() {
    let mut s: ServerState<&str> = ServerState::new(config());
    let packet = [0xFFu8; 20];
    assert!(s.process_packet(&packet, "x", 0).is_some());
    assert_eq!(s.connection(u32::MAX), Some(&"x"));
}

#[test]
fn packets_of_eight_to_fifteen_bytes_are_forward_closes() {
    let mut s: ServerState<&str> = ServerState::new(config());
    s.process_packet(&forward_open(3, 10), "a", 0);
    let mut close = forward_close(3);
    close.extend_from_slice(&[1, 2, 3, 4, 5, 6, 7]);
    assert_eq!(close.len(), 15);
    assert_eq!(s.process_packet(&close, "a", 0), None);
    assert_eq!(s.connection(3), None);
}

#[test]
fn connections_time_out() {
    let mut s: ServerState<&str> = ServerState::new(config());
    s.process_packet(&forward_open(1, 10), "a", 0);
    s.process_packet(&forward_open(2, 10), "b", 2000);
    assert!(s.check_connection_timeouts(CONNECTION_TIMEOUT_MS - 1).is_empty());
    assert_eq!(s.check_connection_timeouts(CONNECTION_TIMEOUT_MS), vec![1]);
    assert_eq!(s.connection(1), None);
    assert_eq!(s.connection(2), Some(&"b"));
    assert_eq!(s.check_connection_timeouts(7000), vec![2]);
    assert_eq!(s.connection(2), None);
    assert!(s.start_cyclic_multicast(100_000).is_empty());
}

#[test]
fn cyclic_frame_layout() {
    let a = AssemblyObject {
        connection_id: 0x01020304,
        data: vec![9, 8, 7],
        rpi_ms: 1,
        next_send_time: 0,
        last_activity: 0,
    };
    assert_eq!(cyclic_frame(&a), vec![4, 3, 2, 1, 9, 8, 7]);
}
