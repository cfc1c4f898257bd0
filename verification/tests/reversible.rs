use codira::reversible::{Register, RegisterFile};

#[test]
fn write_is_reversible_within_a_checkpoint() {
    let mut rf = RegisterFile::new();
    let cp = rf.checkpoint();
    rf.write(Register(0), 5);
    rf.write(Register(1), 7);
    assert_eq!(rf.read(Register(0)), Some(5));
    assert_eq!(rf.read(Register(1)), Some(7));

    rf.rollback_to(cp);
    assert_eq!(rf.read(Register(0)), None);
    assert_eq!(rf.read(Register(1)), None);
    assert_eq!(rf.pending(), 0);
}

#[test]
fn refresh_preserves_pre_checkpoint_values() {
    let mut rf = RegisterFile::new();
    rf.write(Register(0), 3);
    let cp = rf.checkpoint();
    rf.write(Register(0), 9);
    rf.write(Register(1), 1);
    rf.rollback_to(cp);
    assert_eq!(rf.read(Register(0)), Some(3));
    assert_eq!(rf.read(Register(1)), None);
}

#[test]
fn commit_prunes_recovered_history() {
    let mut rf = RegisterFile::new();
    let cp = rf.checkpoint();
    rf.write(Register(0), 1);
    assert_eq!(rf.pending(), 1);
    rf.commit(cp);
    assert_eq!(rf.read(Register(0)), Some(1));
    assert_eq!(rf.pending(), 1);
}

#[test]
fn rollback_to_nested_checkpoint_restores_intermediate_state() {
    let mut rf = RegisterFile::new();
    let cp_a = rf.checkpoint();
    rf.write(Register(0), 1);
    let cp_b = rf.checkpoint();
    rf.write(Register(0), 2);
    rf.write(Register(1), 42);
    rf.rollback_to(cp_b);
    assert_eq!(rf.read(Register(0)), Some(1));
    assert_eq!(rf.read(Register(1)), None);
    rf.rollback_to(cp_a);
    assert_eq!(rf.read(Register(0)), None);
}

#[test]
fn read_or_falls_back_only_when_unwritten() {
    let mut rf = RegisterFile::new();
    assert_eq!(rf.read_or(Register(3), -1), -1);
    rf.write(Register(3), 8);
    assert_eq!(rf.read_or(Register(3), -1), 8);
}

#[test]
fn commit_drops_the_prefix_and_keeps_later_checkpoints() {
    let mut rf = RegisterFile::new();
    rf.write(Register(0), 1);
    let cp_a = rf.checkpoint();
    rf.write(Register(0), 2);
    let cp_b = rf.checkpoint();
    rf.write(Register(0), 3);
    assert_eq!(rf.pending(), 3);
    rf.commit(cp_a);
    assert_eq!(rf.pending(), 2);
    assert_eq!(rf.read(Register(0)), Some(3));
    // A committed checkpoint is closed: committing it again changes nothing.
    rf.commit(cp_a);
    assert_eq!(rf.pending(), 2);
    assert_eq!(rf.read(Register(0)), Some(3));
    // The later checkpoint stays valid, re-indexed to the shortened journal.
    rf.rollback_to(cp_b);
    assert_eq!(rf.read(Register(0)), Some(2));
    assert_eq!(rf.pending(), 1);
}

#[test]
fn checkpoints_at_the_same_position_are_told_apart() {
    let mut rf = RegisterFile::new();
    rf.write(Register(0), 1);
    let cp_a = rf.checkpoint();
    let cp_b = rf.checkpoint();
    rf.write(Register(0), 2);
    rf.commit(cp_b);
    assert_eq!(rf.pending(), 1);
    // Both were closed by committing the later one.
    rf.commit(cp_a);
    assert_eq!(rf.pending(), 1);
    assert_eq!(rf.read(Register(0)), Some(2));
}

#[test]
fn rollback_after_commit_uses_shifted_positions() {
    let mut rf = RegisterFile::new();
    let cp_a = rf.checkpoint();
    rf.write(Register(0), 1);
    rf.commit(cp_a);
    let cp_b = rf.checkpoint();
    rf.write(Register(0), 2);
    rf.write(Register(1), 5);
    rf.rollback_to(cp_b);
    assert_eq!(rf.read(Register(0)), Some(1));
    assert_eq!(rf.read(Register(1)), None);
    assert_eq!(rf.pending(), 1);
}
