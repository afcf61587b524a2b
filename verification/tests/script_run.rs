use fornet_lib::device::script_run::{script_commands, script_step, ScriptStep, Scripts};
use fornet_lib::protobuf::Interface;

#[test]
fn script_split() {
    let scripts = "iptables -A FORWARD -i for0 -j ACCEPT; iptables -A FORWARD -o for0 -j ACCEPT ; iptables -t nat -A POSTROUTING -o eth0 -j MASQUERADE";
    let commands = script_commands(scripts);
    for script in &commands {
        println!("script: {script}");
    }
    assert_eq!(
        commands,
        vec![
            "iptables -A FORWARD -i for0 -j ACCEPT".to_owned(),
            "iptables -A FORWARD -o for0 -j ACCEPT".to_owned(),
            "iptables -t nat -A POSTROUTING -o eth0 -j MASQUERADE".to_owned(),
        ]
    );
}

#[test]
fn script_commands_keep_empty_pieces() {
    assert_eq!(script_commands("a ;; b"), vec!["a".to_owned(), "".to_owned(), "b".to_owned()]);
    assert_eq!(script_commands(""), vec!["".to_owned()]);
    assert_eq!(script_commands("  echo hi  "), vec!["echo hi".to_owned()]);
}

#[test]
fn scripts_from_interface() {
    let interface = Interface {
        name: None,
        address: vec!["10.0.0.2/24".to_owned()],
        listen_port: 51820,
        dns: vec![],
        mtu: None,
        pre_up: Some("echo up".to_owned()),
        post_up: None,
        pre_down: Some("echo down".to_owned()),
        post_down: None,
        protocol: 0,
    };
    let s = Scripts::load_from_interface(&interface);
    assert_eq!(s.pre_up.as_deref(), Some("echo up"));
    assert_eq!(s.post_up, None);
    assert_eq!(s.pre_down.as_deref(), Some("echo down"));
    assert_eq!(s.post_down, None);
    let d = Scripts::default();
    assert!(d.pre_up.is_none() && d.post_up.is_none() && d.pre_down.is_none() && d.post_down.is_none());
}

#[test]
fn script_runs_in_order_and_stops_at_a_failure() {
    let commands = script_commands("echo a; false ;echo c");
    assert!(matches!(script_step(&commands, 0, None), ScriptStep::Run(c) if c == "echo a"));
    assert!(matches!(script_step(&commands, 1, None), ScriptStep::Run(c) if c == "false"));
    assert!(matches!(script_step(&commands, 2, Some("exit 1".to_owned())), ScriptStep::Failed(e) if e == "exit 1"));
    assert!(matches!(script_step(&commands, 3, None), ScriptStep::Done));
}
