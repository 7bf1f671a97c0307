use my_eip_project::balluff::bni008m::{
    assembly_path, check_implicit_started, configure_port_request, decode_inputs, pack_outputs,
    read_assembly_request, write_outputs_request, DeviceError, PortMode, GET_ATTRIBUTE_SINGLE,
    SET_ATTRIBUTE_SINGLE,
};

#[test]
fn assembly_paths() {
    assert_eq!(assembly_path(100), vec![0x20, 0x04, 0x24, 100, 0x30, 0x03]);
    let r = read_assembly_request(102);
    assert_eq!(r.service, GET_ATTRIBUTE_SINGLE);
    assert_eq!(r.path, vec![0x20, 0x04, 0x24, 102, 0x30, 0x03]);
    assert!(r.data.is_empty());
}

#[test]
fn outputs_pack_into_one_word() {
    assert_eq!(pack_outputs(&[]), 0);
    assert_eq!(pack_outputs(&[true, false, true]), 0b101);
    assert_eq!(pack_outputs(&[true; 16]), 0xFFFF);
    let mut many = vec![false; 20];
    many[15] = true;
    many[16] = true;
    many[19] = true;
    assert_eq!(pack_outputs(&many), 0x8000);
}

#[test]
fn write_outputs_request_layout() {
    let r = write_outputs_request(&[false, true, false, false, false, false, false, false, true]);
    assert_eq!(r.service, SET_ATTRIBUTE_SINGLE);
    assert_eq!(r.path, vec![0x20, 0x04, 0x24, 101, 0x30, 0x03]);
    assert_eq!(r.data, vec![0x02, 0x01]);
}

#[test]
fn configure_port_request_layout() {
    let r = configure_port_request(3, PortMode::IoLink);
    assert_eq!(r.service, SET_ATTRIBUTE_SINGLE);
    assert_eq!(r.path, vec![0x20, 0x04, 0x24, 102, 0x30, 0x03]);
    assert_eq!(r.data, vec![3, 1]);
    assert_eq!(configure_port_request(0, PortMode::Digital).data, vec![0, 0]);
    assert_eq!(PortMode::Digital.code(), 0);
    assert_eq!(PortMode::IoLink.code(), 1);
}

#[test]
fn inputs_decode_from_a_little_endian_word() {
    let states = decode_inputs(&[0x05, 0x80, 0xFF]).unwrap();
    assert_eq!(states.len(), 16);
    let mut expected = vec![false; 16];
    expected[0] = true;
    expected[2] = true;
    expected[15] = true;
    assert_eq!(states, expected);
}

#[test]
fn short_input_data_is_an_error() {
    assert_eq!(decode_inputs(&[0x01]), Err(DeviceError::InputDataTooShort));
    assert_eq!(decode_inputs(&[]), Err(DeviceError::InputDataTooShort));
    assert_eq!(DeviceError::InputDataTooShort.message(), "Input data too short");
}

#[test]
fn written_outputs_read_back() {
    let outputs = [true, true, false, true, false, false, true];
    let r = write_outputs_request(&outputs);
    let states = decode_inputs(&r.data).unwrap();
    for i in 0..16 {
        assert_eq!(states[i], i < outputs.len() && outputs[i]);
    }
}

#[test]
fn implicit_connection_must_be_started() {
    assert_eq!(check_implicit_started(true), Ok(()));
    assert_eq!(check_implicit_started(false), Err(DeviceError::ImplicitNotStarted));
    assert_eq!(DeviceError::ImplicitNotStarted.message(), "Implicit connection not started");
}

#[test]
fn implicit_opens_only_once() {
    assert!(my_eip_project::balluff::bni008m::implicit_needs_open(false));
    assert!(!my_eip_project::balluff::bni008m::implicit_needs_open(true));
}
