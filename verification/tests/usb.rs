use stir4200::usb::{
    describe_device, find_device, id_text, missing_text, report_expectations, ConfigInfo, DeviceInfo, EndpointInfo,
    Endpoints, Search, SettingInfo, Transfer, STIR_PID, STIR_VID,
};

fn endpoint(address: u8, transfer: Transfer) -> EndpointInfo {
    EndpointInfo {
        address,
        input: address & 0x80 != 0,
        transfer,
        max_packet_size: 64,
        interval: 0,
    }
}

fn setting(interface: u8, setting: u8, endpoints: Vec<EndpointInfo>) -> SettingInfo {
    SettingInfo {
        interface,
        setting,
        class_code: 0xff,
        sub_class_code: 1,
        protocol_code: 0,
        num_endpoints: endpoints.len() as u8,
        endpoints,
    }
}

fn config(number: u8, settings: Vec<SettingInfo>) -> ConfigInfo {
    ConfigInfo {
        number,
        num_interfaces: 1,
        max_power: 440,
        self_powered: false,
        settings,
    }
}

fn dongle(configs: Vec<ConfigInfo>) -> DeviceInfo {
    DeviceInfo {
        bus: 1,
        address: 23,
        vendor_id: STIR_VID,
        product_id: STIR_PID,
        device_version: (0, 0, 8),
        usb_version: (1, 1, 0),
        class_code: 0xff,
        sub_class_code: 1,
        protocol_code: 0,
        num_configurations: 1,
        manufacturer: Some(" Sigmatel Inc ".to_string()),
        product: Some(" IrDA/USB Bridge".to_string()),
        serial_number: None,
        configs,
    }
}

#[test]
fn devices_are_searched_in_order() {
    let ids = [Some((1, 2)), Some((0x066f, 0x4200)), None, Some((0x066f, 0x4200))];
    assert_eq!(find_device(&ids, STIR_VID, STIR_PID), Search::Found(1));
    assert_eq!(find_device(&ids, 1, 2), Search::Found(0));
    assert_eq!(find_device(&ids, 1, 3), Search::Unreadable(2));
    assert_eq!(find_device(&ids[..2], 1, 3), Search::Missing);
    assert_eq!(find_device(&[], 1, 3), Search::Missing);
}

#[test]
fn descriptor_tree_of_the_dongle() {
    let d = dongle(vec![config(
        1,
        vec![setting(
            0,
            0,
            vec![endpoint(0x01, Transfer::Bulk), endpoint(0x82, Transfer::Bulk)],
        )],
    )]);
    let (text, endpoints) = describe_device(&d);
    assert_eq!(
        text,
        "Device on bus 001 address 023\n\
         \x20 idVendor=0x066f idProduct=0x4200\n\
         \x20 bcdDevice=0.0.8  (chip revision — verify register values apply, brief §6)\n\
         \x20 bcdUSB=1.1.0\n\
         \x20 bDeviceClass=0xff bDeviceSubClass=0x01 bDeviceProtocol=0x00\n\
         \x20 bNumConfigurations=1\n\
         \x20 iManufacturer=\" Sigmatel Inc \"\n\
         \x20 iProduct=\" IrDA/USB Bridge\"\n\
         \x20 Configuration 1: 1 interface(s), max_power=440 mA, self_powered=false\n\
         \x20   Interface 0 (alt 0): class=0xff subclass=0x01 protocol=0x00, 2 endpoint(s)\n\
         \x20     Endpoint 0x01  OUT  bulk        max_packet=64 interval=0\n\
         \x20     Endpoint 0x82  IN   bulk        max_packet=64 interval=0\n"
    );
    assert_eq!(
        endpoints,
        Endpoints { interface: 0, setting: 0, bulk_out: Some(0x01), bulk_in: Some(0x82) }
    );
}

#[test]
fn endpoints_are_those_of_the_first_setting() {
    let d = dongle(vec![
        config(1, vec![]),
        config(
            2,
            vec![
                setting(
                    3,
                    1,
                    vec![
                        endpoint(0x01, Transfer::Bulk),
                        endpoint(0x83, Transfer::Interrupt),
                        endpoint(0x04, Transfer::Bulk),
                        endpoint(0x05, Transfer::Isochronous),
                    ],
                ),
                setting(0, 0, vec![endpoint(0x82, Transfer::Bulk)]),
            ],
        ),
    ]);
    let (text, endpoints) = describe_device(&d);
    assert_eq!(
        endpoints,
        Endpoints { interface: 3, setting: 1, bulk_out: Some(0x04), bulk_in: None }
    );
    assert!(text.contains("Endpoint 0x83  IN   interrupt   max_packet"));
    assert!(text.contains("Endpoint 0x05  OUT  isochronous max_packet"));
    assert!(text.ends_with("Endpoint 0x82  IN   bulk        max_packet=64 interval=0\n"));
}

#[test]
fn device_without_settings_has_no_endpoints() {
    let (_, endpoints) = describe_device(&dongle(vec![]));
    assert_eq!(endpoints, Endpoints::default());
    assert_eq!(
        Endpoints::default(),
        Endpoints { interface: 0, setting: 0, bulk_out: None, bulk_in: None }
    );
}

#[test]
fn expected_endpoints_are_confirmed() {
    let ep = Endpoints { interface: 0, setting: 0, bulk_out: Some(0x01), bulk_in: Some(0x82) };
    assert_eq!(
        report_expectations(&ep),
        "\nEndpoint check (vs Linux stir4200.c assumptions):\n\
         \x20 bulk OUT : 0x01 (ep 1) — matches expected ep 1\n\
         \x20 bulk IN  : 0x82 (ep 2) — matches expected ep 2\n\
         \x20 control  : endpoint 0 (implicit) — used for register read/write\n"
    );
}

#[test]
fn other_endpoints_are_told() {
    let ep = Endpoints { interface: 0, setting: 0, bulk_out: Some(0x03), bulk_in: None };
    assert_eq!(
        report_expectations(&ep),
        "\nEndpoint check (vs Linux stir4200.c assumptions):\n\
         \x20 bulk OUT : 0x03 (ep 3) — DIFFERS from expected ep 1\n\
         \x20 bulk IN  : MISSING — expected an ep 2 bulk IN\n\
         \x20 control  : endpoint 0 (implicit) — used for register read/write\n"
    );
    let ep = Endpoints { interface: 0, setting: 0, bulk_out: None, bulk_in: Some(0x81) };
    let text = report_expectations(&ep);
    assert!(text.contains("  bulk OUT : MISSING — expected an ep 1 bulk OUT\n"));
    assert!(text.contains("  bulk IN  : 0x81 (ep 1) — DIFFERS from expected ep 2\n"));
}

#[test]
fn missing_devices_are_named() {
    assert_eq!(id_text(0x066f, 0x4200), "066f:4200");
    assert_eq!(
        missing_text(1, 0xabcd),
        "device 0001:abcd not found. Is the STIr4200 dongle plugged in? (On macOS, check with \
         `system_profiler SPUSBDataType` / `ioreg -p IOUSB`.)"
    );
}
