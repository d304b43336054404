use proto::quake::{
    build_info_response, build_status_response, parse_info_response, parse_kv_pairs,
    parse_status_response, QuakePlayer, QuakeServerConfig,
};

fn lookup<'a>(values: &'a [(String, String)], key: &str) -> Option<&'a str> {
    values.iter().find(|(k, _)| k == key).map(|(_, v)| v.as_str())
}

fn sample_config() -> QuakeServerConfig {
    QuakeServerConfig {
        info: vec![
            ("sv_hostname".to_string(), "Moonlight".to_string()),
            ("mapname".to_string(), "q3dm17".to_string()),
        ],
        players: vec![QuakePlayer { score: 1, ping: 33, name: "bot".to_string() }],
    }
}

#[test]
fn quake_info_status() {
    let config = sample_config();
    let info = parse_info_response(&build_info_response(&config)).unwrap();
    assert_eq!(lookup(&info.values, "mapname").unwrap(), "q3dm17");
    let status = parse_status_response(&build_status_response(&config)).unwrap();
    assert_eq!(status.players.len(), 1);
}

#[test]
fn quake_status_response_bytes() {
    let config = sample_config();
    let bytes = build_status_response(&config);
    let mut expected = b"\xff\xff\xff\xffstatusResponse\n".to_vec();
    expected.extend_from_slice(b"\\sv_hostname\\Moonlight\\mapname\\q3dm17\n1 33 \"bot\"\n");
    assert_eq!(bytes, expected);
    let status = parse_status_response(&bytes).unwrap();
    assert_eq!(lookup(&status.values, "sv_hostname"), Some("Moonlight"));
    assert_eq!(status.players[0].score, 1);
    assert_eq!(status.players[0].ping, 33);
    assert_eq!(status.players[0].name, "bot");
}

#[test]
fn quake_info_response_bytes() {
    let bytes = build_info_response(&sample_config());
    assert_eq!(bytes, b"\xff\xff\xff\xffinfoResponse\n\\sv_hostname\\Moonlight\\mapname\\q3dm17".to_vec());
}

#[test]
fn quake_status_player_lines() {
    let data = b"\xff\xff\xff\xffstatusResponse\n\\a\\1\n  -7   12 \"\"Some One\"\"\nnoping\nx y z\n\n";
    let status = parse_status_response(data).unwrap();
    assert_eq!(status.players.len(), 2);
    assert_eq!(status.players[0].score, -7);
    assert_eq!(status.players[0].ping, 12);
    assert_eq!(status.players[0].name, "Some One");
    assert_eq!(status.players[1].score, 0);
    assert_eq!(status.players[1].ping, 0);
    assert_eq!(status.players[1].name, "z");
}

#[test]
fn quake_response_errors() {
    assert!(parse_info_response(b"\xff\xff\xff").is_err());
    assert!(parse_info_response(b"\xff\xff\xfe\xffinfoResponse\n").is_err());
    assert!(parse_info_response(b"\xff\xff\xff\xffstatusResponse\n").is_err());
    assert!(parse_status_response(b"\xff\xff\xff\xffinfoResponse\n").is_err());
}

#[test]
fn quake_kv_pairs_last_wins() {
    let text: Vec<char> = "\\a\\1\\\\b\\2\\a\\3\\dangling".chars().collect();
    let pairs = parse_kv_pairs(&text);
    assert_eq!(lookup(&pairs, "a"), Some("3"));
    assert_eq!(lookup(&pairs, "b"), Some("2"));
    assert_eq!(lookup(&pairs, "dangling"), None);
}
