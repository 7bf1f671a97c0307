use my_eip_project::assembly::AssemblyManager;

#[test]
fn registered_assembly_is_due_after_one_interval() {
    let mut m = AssemblyManager::new();
    m.register(7, 10, 100);
    assert!(m.get_ready_transmissions(109).is_empty());
    let ready = m.get_ready_transmissions(110);
    assert_eq!(ready.len(), 1);
    assert_eq!(ready[0].connection_id, 7);
    assert_eq!(ready[0].data, vec![0, 0, 0, 0]);
    assert_eq!(ready[0].rpi_ms, 10);
    assert_eq!(ready[0].next_send_time, 110);
    assert_eq!(ready[0].last_activity, 100);
    // Rescheduled one interval after the transmission.
    assert!(m.get_ready_transmissions(119).is_empty());
    let ready = m.get_ready_transmissions(125);
    assert_eq!(ready.len(), 1);
    assert_eq!(ready[0].next_send_time, 120);
    assert!(m.get_ready_transmissions(134).is_empty());
    assert_eq!(m.get_ready_transmissions(135).len(), 1);
}

#[test]
fn ready_transmissions_come_in_table_order() {
    let mut m = AssemblyManager::new();
    m.register(1, 5, 0);
    m.register(2, 50, 0);
    m.register(3, 5, 0);
    let ids: Vec<u32> = m.get_ready_transmissions(10).iter().map(|a| a.connection_id).collect();
    assert_eq!(ids, vec![1, 3]);
    let ids: Vec<u32> = m.get_ready_transmissions(60).iter().map(|a| a.connection_id).collect();
    assert_eq!(ids, vec![1, 2, 3]);
}

#[test]
fn zero_interval_is_due_every_time() {
    let mut m = AssemblyManager::new();
    m.register(4, 0, 20);
    assert_eq!(m.get_ready_transmissions(20).len(), 1);
    assert_eq!(m.get_ready_transmissions(20).len(), 1);
}

#[test]
fn reregistering_replaces_the_assembly() {
    let mut m = AssemblyManager::new();
    m.register(9, 10, 0);
    m.register(9, 100, 50);
    assert!(m.get_ready_transmissions(100).is_empty());
    let ready = m.get_ready_transmissions(150);
    assert_eq!(ready.len(), 1);
    assert_eq!(ready[0].rpi_ms, 100);
    assert_eq!(ready[0].last_activity, 50);
}

#[test]
fn cleanup_removes_silent_connections() {
    let mut m = AssemblyManager::new();
    m.register(1, 10, 0);
    m.register(2, 10, 3000);
    m.register(3, 10, 1000);
    assert_eq!(m.cleanup_timed_out_connections(5000, 4999), Vec::<u32>::new());
    assert_eq!(m.cleanup_timed_out_connections(5000, 6000), vec![1, 3]);
    // A second cleanup at the same time removes nothing.
    assert_eq!(m.cleanup_timed_out_connections(5000, 6000), Vec::<u32>::new());
    assert_eq!(m.cleanup_timed_out_connections(5000, 8000), vec![2]);
    assert!(m.get_ready_transmissions(100_000).is_empty());
}

#[test]
fn activity_keeps_a_connection_alive() {
    let mut m = AssemblyManager::new();
    m.register(1, 10, 0);
    m.register(2, 10, 0);
    m.update_activity(2, 4000);
    m.update_activity(99, 4000);
    assert_eq!(m.cleanup_timed_out_connections(5000, 5000), vec![1]);
    assert_eq!(m.cleanup_timed_out_connections(5000, 8999), Vec::<u32>::new());
    assert_eq!(m.cleanup_timed_out_connections(5000, 9000), vec![2]);
}

#[test]
fn activity_in_the_future_counts_as_no_time_elapsed() {
    let mut m = AssemblyManager::new();
    m.register(1, 10, 10_000);
    assert_eq!(m.cleanup_timed_out_connections(1, 5), Vec::<u32>::new());
    assert_eq!(m.cleanup_timed_out_connections(0, 5), vec![1]);
}

#[test]
fn second_tick_at_the_same_instant_sends_nothing() {
    let mut m = AssemblyManager::new();
    m.register(1, 3, 0);
    m.register(2, 7, 0);
    assert_eq!(m.get_ready_transmissions(10).len(), 2);
    assert!(m.get_ready_transmissions(10).is_empty());
    // Spacing: connection 1 is due again only three milliseconds later.
    assert!(m.get_ready_transmissions(12).is_empty());
    let ids: Vec<u32> = m.get_ready_transmissions(13).iter().map(|a| a.connection_id).collect();
    assert_eq!(ids, vec![1]);
}

#[test]
fn last_registration_wins() {
    let mut m = AssemblyManager::new();
    m.register(5, 1, 0);
    m.register(5, 40, 10);
    let ready = m.get_ready_transmissions(1000);
    assert_eq!(ready.len(), 1);
    assert_eq!(ready[0].rpi_ms, 40);
    assert_eq!(ready[0].last_activity, 10);
    assert_eq!(ready[0].data, vec![0, 0, 0, 0]);
    let copy = ready[0].clone();
    assert_eq!(copy.connection_id, 5);
}

#[test]
fn schedule_survives_other_operations() {
    let mut m = AssemblyManager::new();
    m.register(1, 10, 0);
    assert_eq!(m.get_ready_transmissions(10).len(), 1); // next due at 20
    m.register(2, 100, 12);
    m.update_activity(1, 13);
    assert_eq!(m.cleanup_timed_out_connections(5000, 14), Vec::<u32>::new());
    assert!(m.get_ready_transmissions(19).is_empty());
    let ids: Vec<u32> = m.get_ready_transmissions(20).iter().map(|a| a.connection_id).collect();
    assert_eq!(ids, vec![1]);
}

#[test]
fn last_activity_decides_timeout_whatever_else_happens() {
    let mut m = AssemblyManager::new();
    m.register(1, 10, 100);
    m.register(2, 10, 3000);
    m.update_activity(2, 4000);
    m.get_ready_transmissions(4500);
    assert_eq!(m.cleanup_timed_out_connections(5000, 5099), Vec::<u32>::new());
    assert_eq!(m.cleanup_timed_out_connections(5000, 5100), vec![1]);
}

#[test]
fn successive_cleanups_report_different_connections() {
    let mut m = AssemblyManager::new();
    m.register(1, 10, 0);
    m.register(2, 10, 50);
    let first = m.cleanup_timed_out_connections(100, 120);
    let second = m.cleanup_timed_out_connections(10, 200);
    assert_eq!(first, vec![1]);
    assert_eq!(second, vec![2]);
}

#[test]
fn longer_timeout_removes_less() {
    let build = || {
        let mut m = AssemblyManager::new();
        m.register(1, 10, 0);
        m.register(2, 10, 500);
        m.register(3, 10, 900);
        m
    };
    let short = build().cleanup_timed_out_connections(200, 1000);
    let long = build().cleanup_timed_out_connections(600, 1000);
    assert_eq!(short, vec![1, 2]);
    assert_eq!(long, vec![1]);
}
