use karte::driver::ahci::{
    build_cmd_fis, capacity, check_sector_buffer, command_header_dw0, flush_command, poll_command, prd_byte_count,
    read_command, supports_lba48, write_command, PollState,
};

#[test]
fn command_fis_layout() {
    let f = build_cmd_fis(0x25, 0x0011_2233_4455_6677, 0x0102);
    assert_eq!(
        f,
        vec![0x27, 0x80, 0x25, 0, 0x77, 0x66, 0x55, 0x40, 0x44, 0x33, 0x22, 0x11, 0x02, 0x01, 0, 0, 0, 0, 0, 0]
    );
}

#[test]
fn header_and_prd() {
    assert_eq!(command_header_dw0(false, 1), 0x0001_0005);
    assert_eq!(command_header_dw0(true, 1), 0x0001_0045);
    assert_eq!(command_header_dw0(false, 0), 5);
    assert_eq!(prd_byte_count(512), 511);
}

#[test]
fn polling_sees_errors_before_completion() {
    assert_eq!(poll_command(0, 1), PollState::Failed);
    assert_eq!(poll_command(1, 0x41), PollState::Failed);
    assert_eq!(poll_command(0, 0x40), PollState::Done);
    assert_eq!(poll_command(1, 0), PollState::Pending);
}

#[test]
fn command_choice_and_limits() {
    assert!(supports_lba48());
    assert_eq!(read_command(true), 0x25);
    assert_eq!(read_command(false), 0xC8);
    assert_eq!(write_command(true), 0x34);
    assert_eq!(write_command(false), 0xCA);
    assert_eq!(flush_command(true), 0xEA);
    assert_eq!(flush_command(false), 0xE7);
    assert_eq!(check_sector_buffer(511), Err("buffer too small"));
    assert!(check_sector_buffer(512).is_ok());
    assert_eq!(capacity(true), Some(0));
    assert_eq!(capacity(false), None);
}
