use fornet_lib::fortun::{net_config_plan, adapter_device, class_key_path, instance_key_path, matching_instance, select_devices, tcpip_adapter_name, Located};
use fornet_lib::fortun::{
    address_args, ctl_code, get_pcwstr_list, mtu_args, try_get_pcwstr_list, AdapterDevice, Overlapped,
    WinOverlappedFile, FOR_TUN_HWID, FOR_TUN_IOCTL_OPEN_ADAPTER,
};

fn wide(parts: &[&str]) -> Vec<u16> {
    let mut v = Vec::new();
    for p in parts {
        v.extend(p.encode_utf16());
        v.push(0);
    }
    v.push(0);
    v
}

#[test]
fn control_codes() {
    assert_eq!(ctl_code(0x22, 0x801, 0, 0), FOR_TUN_IOCTL_OPEN_ADAPTER);
    assert_eq!(FOR_TUN_IOCTL_OPEN_ADAPTER, 0x222004);
    assert_eq!(FOR_TUN_HWID, "ForTun");
}

#[test]
fn utf16_lists() {
    assert_eq!(get_pcwstr_list(wide(&["ab", "c"])), vec!["ab".to_owned(), "c".to_owned()]);
    assert_eq!(get_pcwstr_list(vec![0, 0]), Vec::<String>::new());
    assert_eq!(get_pcwstr_list(vec![0x41, 0]), vec!["A".to_owned()]);
    assert_eq!(try_get_pcwstr_list(vec![0xd800, 0, 0]), None);
    assert_eq!(try_get_pcwstr_list(wide(&["x"])), Some(vec!["x".to_owned()]));
}

#[test]
fn netsh_arguments() {
    assert_eq!(
        address_args("5", "10.0.0.2", "255.255.255.0"),
        vec!["interface", "ip", "set", "address", "5", "static", "10.0.0.2", "255.255.255.0"]
    );
    assert_eq!(mtu_args("5", 1428, true), vec!["interface", "ipv4", "set", "subinterface", "5", "mtu=1428"]);
    assert_eq!(mtu_args("5", 1280, false)[1], "ipv6");
}

#[test]
fn handles() {
    let d = AdapterDevice::new(7, "inst".to_owned(), "iface".to_owned());
    assert_eq!((d.handler, d.instance_id.as_str(), d.interface_id.as_str()), (7, "inst", "iface"));
    assert_eq!(WinOverlappedFile::new(3).ok().unwrap().file, 3);
    let o = Overlapped::default();
    assert_eq!((o.internal, o.offset, o.h_event), (0, 0, 0));
}

#[test]
fn registry_paths() {
    let class = class_key_path("4d36e972-e325-11ce-bfc1-08002be10318");
    assert_eq!(class, "SYSTEM\\CurrentControlSet\\Control\\Class\\{4d36e972-e325-11ce-bfc1-08002be10318}");
    assert_eq!(instance_key_path(&class, "0007"), format!("{}\\0007", class));
    assert_eq!(tcpip_adapter_name("{ABC}"), "\\DEVICE_TCPIP_{ABC}");
    let devices = vec![("0001".to_owned(), "PCI\\X".to_owned()), ("0002".to_owned(), "SWD\\ForTun".to_owned())];
    assert_eq!(matching_instance(&devices, &"SWD\\ForTun".to_owned()), Some(1));
    assert_eq!(matching_instance(&devices, &"none".to_owned()), None);
}


#[test]
fn adapter_lookup_results() {
    let id = "ROOT\\NET\\0001".to_owned();
    let e = adapter_device("c-guid", None, &id).err().unwrap();
    assert_eq!(e.message(), "can not open registry key: SYSTEM\\CurrentControlSet\\Control\\Class\\{c-guid}");
    let devices = vec![("0000".to_owned(), "OTHER".to_owned()), ("0001".to_owned(), id.clone()), ("0002".to_owned(), id.clone())];
    assert_eq!(adapter_device("c-guid", Some(&devices), &id).ok(), Some(1));
    let e = adapter_device("c-guid", Some(&devices[..1].to_vec()), &id).err().unwrap();
    assert_eq!(e.message(), "could not get device NetCfgInstanceId");
}

#[test]
fn devices_of_the_class() {
    let ids = vec!["a".to_owned(), "b".to_owned(), "c".to_owned(), "d".to_owned()];
    let located = vec![
        Located::Found(Some("ForTun".to_owned())),
        Located::NoSuchDevnode,
        Located::Found(Some("other".to_owned())),
        Located::Found(Some("ForTun".to_owned())),
    ];
    assert_eq!(select_devices(&ids, &located, "ForTun"), Ok(vec!["a".to_owned(), "d".to_owned()]));
    let located = vec![Located::Found(Some("ForTun".to_owned())), Located::Failed(13), Located::Failed(7), Located::Found(None)];
    assert_eq!(select_devices(&ids, &located, "ForTun"), Err(13));
}

#[test]
fn net_config_commands() {
    let plan = net_config_plan(5, "10.0.0.2", "255.255.255.0", 1420, Some(true));
    assert!(plan.address_ok);
    assert_eq!(plan.commands.len(), 2);
    assert_eq!(plan.commands[0], vec!["interface", "ip", "set", "address", "5", "static", "10.0.0.2", "255.255.255.0"]);
    assert_eq!(plan.commands[1], vec!["interface", "ipv4", "set", "subinterface", "5", "mtu=1420"]);
    let plan = net_config_plan(5, "nope", "255.255.255.0", 1420, None);
    assert!(!plan.address_ok);
    assert_eq!(plan.commands.len(), 1);
}
