use rustle::cli::{parse_command, parse_selection, Command};
use rustle::daemon::{announced_hostname, notification_accepts, notification_urgency, reported_hostname, Daemon};
use rustle::device::{clean_hostname, extract_instance_name, DiscoveredDevice};
use rustle::protocol::{INSTANCE_NAME, SERVICE_TYPE};
use rustle::sender::{avatar_key, avatars_to_load, file_label, file_name_for_request, name_initial};

fn args(list: &[&str]) -> Vec<String> {
    list.iter().map(|s| s.to_string()).collect()
}

#[test]
fn commands() {
    assert!(matches!(parse_command(&args(&["rustle"])), Command::Help));
    assert!(matches!(parse_command(&args(&["rustle", "daemon"])), Command::Daemon));
    assert!(matches!(parse_command(&args(&["rustle", "scan"])), Command::Scan));
    assert!(matches!(parse_command(&args(&["rustle", "send"])), Command::SendWithoutPath));
    assert!(matches!(parse_command(&args(&["rustle", "gui"])), Command::GuiWithoutPath));
    match parse_command(&args(&["rustle", "send", "a.txt"])) {
        Command::Send(p) => assert_eq!(p, "a.txt"),
        _ => panic!("expected send"),
    }
    match parse_command(&args(&["rustle", "gui", "b.txt", "extra"])) {
        Command::Gui(p) => assert_eq!(p, "b.txt"),
        _ => panic!("expected gui"),
    }
    match parse_command(&args(&["rustle", "help"])) {
        Command::Unknown(c) => assert_eq!(c, "help"),
        _ => panic!("expected unknown"),
    }
}

#[test]
fn selections() {
    assert_eq!(parse_selection("1\n", 3), Some(0));
    assert_eq!(parse_selection(" 3 ", 3), Some(2));
    assert_eq!(parse_selection("0", 3), None);
    assert_eq!(parse_selection("4", 3), None);
    assert_eq!(parse_selection("x", 3), None);
    assert_eq!(parse_selection("", 3), None);
    assert_eq!(parse_selection("1", 0), None);
}

#[test]
fn daemon_names() {
    let d = Daemon::new(49242, "localhost".to_string());
    assert_eq!(d.port, 49242);
    assert_eq!(d.hostname, "localhost");
    assert_eq!(announced_hostname(&Some("box".to_string())), "box.local.");
    assert_eq!(announced_hostname(&None), "localhost.local.");
    assert_eq!(reported_hostname(&None), "localhost");
    assert_eq!(reported_hostname(&Some("box".to_string())), "box");
}

#[test]
fn notifications() {
    assert!(notification_accepts(&Some("accept".to_string())));
    assert!(!notification_accepts(&Some("decline".to_string())));
    assert!(!notification_accepts(&None));
    assert_eq!(notification_urgency(true), "critical");
    assert_eq!(notification_urgency(false), "normal");
}

#[test]
fn file_names() {
    assert_eq!(file_label("/home/me/docs/report.pdf"), "report.pdf");
    assert_eq!(file_label("report.pdf"), "report.pdf");
    assert_eq!(file_label("/"), "unknown");
    assert_eq!(file_label("/tmp/.."), "unknown");
    assert_eq!(file_name_for_request("dir/x.bin"), Some("x.bin".to_string()));
    assert_eq!(file_name_for_request(""), None);
}

#[test]
fn avatars() {
    let with = DiscoveredDevice {
        name: "Anna".to_string(),
        hostname: "anna".to_string(),
        ip: "10.0.0.3".to_string(),
        port: 1,
        display_name: None,
        avatar_data: Some(vec![1, 2, 3]),
    };
    let without = DiscoveredDevice { avatar_data: None, hostname: "bob".to_string(), ..with.duplicate() };
    assert_eq!(avatar_key(&with), "anna:10.0.0.3");
    let devices = vec![with.duplicate(), without];
    let pending = avatars_to_load(&devices, &vec![]);
    assert_eq!(pending, vec![("anna:10.0.0.3".to_string(), vec![1, 2, 3])]);
    assert!(avatars_to_load(&devices, &vec!["anna:10.0.0.3".to_string()]).is_empty());
    assert_eq!(name_initial("Anna"), 'A');
    assert_eq!(name_initial(""), '?');
}

#[test]
fn announced_names_come_back_from_discovery() {
    assert_eq!(clean_hostname(&announced_hostname(&Some("studio".to_string()))), "studio");
    assert_eq!(clean_hostname(&announced_hostname(&None)), "localhost");
    let fullname = format!("{INSTANCE_NAME}.{SERVICE_TYPE}");
    assert_eq!(extract_instance_name(&fullname), "Rustle");
}

#[test]
fn listed_numbers_select_their_entry() {
    for count in 1..12usize {
        for k in 0..count {
            assert_eq!(parse_selection(&format!("{}\n", k + 1), count), Some(k));
        }
    }
}
