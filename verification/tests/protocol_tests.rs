use rustle::protocol::{
    completion_reply, consent_reply, host_port, info_reply, parse_avatar_header,
    parse_info_reply, parse_transfer_request, peer_address, reply_accepts, reply_confirms,
    socket_address, transfer_request_line, TransferRequest, ACCEPTED_REPLY, AVATAR_QUERY,
    COMPLETE_REPLY, DECLINED_REPLY, INFO_QUERY, INVALID_REQUEST_REPLY,
};

fn transfer_of(r: TransferRequest) -> Option<(String, String, u64)> {
    match r {
        TransferRequest::Transfer { sender, file_name, file_size } => Some((sender, file_name, file_size)),
        _ => None,
    }
}

#[test]
fn request_line_has_the_wire_format() {
    assert_eq!(transfer_request_line("laptop", "photo.jpg", 1234), "TRANSFER_REQUEST|laptop|photo.jpg|1234\n");
    assert_eq!(transfer_request_line("a", "b", 0), "TRANSFER_REQUEST|a|b|0\n");
    assert_eq!(transfer_request_line("a", "b", u64::MAX), "TRANSFER_REQUEST|a|b|18446744073709551615\n");
}

#[test]
fn request_round_trip() {
    let line = transfer_request_line("my host", "report final.pdf", 987654321);
    assert_eq!(
        transfer_of(parse_transfer_request(&line)),
        Some(("my host".to_string(), "report final.pdf".to_string(), 987654321))
    );
}

#[test]
fn request_parsing_trims_surrounding_whitespace() {
    let r = parse_transfer_request("  TRANSFER_REQUEST|pc|a.txt|42 \r\n");
    assert_eq!(transfer_of(r), Some(("pc".to_string(), "a.txt".to_string(), 42)));
}

#[test]
fn info_query_is_recognized() {
    assert!(matches!(parse_transfer_request(INFO_QUERY), TransferRequest::Info));
    assert!(matches!(parse_transfer_request("INFO|extra|fields"), TransferRequest::Info));
}

#[test]
fn malformed_requests() {
    assert!(matches!(parse_transfer_request(""), TransferRequest::Malformed));
    assert!(matches!(parse_transfer_request("HELLO\n"), TransferRequest::Malformed));
    assert!(matches!(parse_transfer_request("TRANSFER_REQUEST|a|b\n"), TransferRequest::Malformed));
    assert!(matches!(parse_transfer_request("TRANSFER_REQUEST|a|b|1|2\n"), TransferRequest::Malformed));
    assert!(matches!(parse_transfer_request("transfer_request|a|b|1\n"), TransferRequest::Malformed));
}

#[test]
fn command_line_request_is_a_transfer() {
    let line = transfer_request_line("host", "file.txt", 5);
    assert_eq!(
        transfer_of(parse_transfer_request(&line)),
        Some(("host".to_string(), "file.txt".to_string(), 5))
    );
    assert!(matches!(parse_transfer_request("TRANSFER_REQUEST|host|file.txt\n"), TransferRequest::Malformed));
}

#[test]
fn avatar_query_is_refused() {
    assert!(matches!(parse_transfer_request(AVATAR_QUERY), TransferRequest::Malformed));
}

#[test]
fn bad_sizes() {
    assert!(matches!(parse_transfer_request("TRANSFER_REQUEST|a|b|ten\n"), TransferRequest::BadSize { .. }));
    assert!(matches!(parse_transfer_request("TRANSFER_REQUEST|a|b|-1\n"), TransferRequest::BadSize { .. }));
    assert!(matches!(parse_transfer_request("TRANSFER_REQUEST|a|b|\n"), TransferRequest::BadSize { .. }));
    assert!(matches!(
        parse_transfer_request("TRANSFER_REQUEST|a|b|18446744073709551616\n"),
        TransferRequest::BadSize { .. }
    ));
    match parse_transfer_request("TRANSFER_REQUEST|a|b| 12x \n") {
        TransferRequest::BadSize { size_field } => assert_eq!(size_field, " 12x"),
        _ => panic!("expected a bad size"),
    }
    assert_eq!(
        transfer_of(parse_transfer_request("TRANSFER_REQUEST|a|b|+7\n")),
        Some(("a".to_string(), "b".to_string(), 7))
    );
}

#[test]
fn info_round_trip() {
    let reply = info_reply("workstation");
    assert_eq!(reply, "INFO|workstation|Rustle|1.0\n");
    assert_eq!(parse_info_reply(&reply), Some("workstation".to_string()));
    assert_eq!(parse_info_reply("INFO|x"), None);
    assert_eq!(parse_info_reply("ERROR|Invalid request format\n"), None);
}

#[test]
fn consent_and_completion_replies() {
    assert_eq!(consent_reply(true), "ACCEPTED\n");
    assert_eq!(consent_reply(false), "DECLINED\n");
    assert_eq!(completion_reply(&Ok(())), "TRANSFER_COMPLETE\n");
    assert_eq!(completion_reply(&Err("disk full".to_string())), "ERROR|disk full\n");
}

#[test]
fn sender_reads_replies() {
    assert!(reply_accepts(ACCEPTED_REPLY));
    assert!(!reply_accepts(DECLINED_REPLY));
    assert!(!reply_accepts(INVALID_REQUEST_REPLY));
    assert!(!reply_accepts(""));
    assert!(reply_confirms(COMPLETE_REPLY));
    assert!(!reply_confirms("ERROR|Connection closed prematurely\n"));
}

#[test]
fn avatar_headers() {
    assert_eq!(parse_avatar_header("AVATAR|2048\n"), Some(2048));
    assert_eq!(parse_avatar_header("AVATAR| 17 |x"), Some(17));
    assert_eq!(parse_avatar_header("AVATAR|0\n"), None);
    assert_eq!(parse_avatar_header("AVATAR|10000000\n"), None);
    assert_eq!(parse_avatar_header("AVATAR|9999999\n"), Some(9999999));
    assert_eq!(parse_avatar_header("AVATAR\n"), None);
    assert_eq!(parse_avatar_header("PICTURE|5\n"), None);
}

#[test]
fn addresses() {
    assert_eq!(peer_address("192.168.1.20", 49242), "192.168.1.20:49242");
    assert_eq!(peer_address("nas:7000", 49242), "nas:7000");
    assert_eq!(socket_address("10.0.0.5", 80), "10.0.0.5:80");
    assert_eq!(socket_address("fe80::1", 49242), "[fe80::1]:49242");
    assert_eq!(host_port("laptop.local.", 49242), "laptop.local.:49242");
}
