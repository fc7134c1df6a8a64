//! The shell tool, the encodings of files and the guard on addresses.
use cogent::bash::{
    bash, bash_timeout_secs, extract_cog_skill_name, split_shell_segments, truncate_output,
    ShellRun, BASH_OUTPUT_MAX_BYTES, BASH_TIMEOUT_SECS,
};
use cogent::builtin::{build_tools, tool_request, ToolRequest};
use cogent::encoding::{
    decode_bytes, detect_encoding, detect_encoding_from_bytes, encode_content, read_with_encoding,
    write_with_encoding, Encoding, EncodingError,
};
use cogent::http::{
    assert_public_target, host_to_resolve, http_get, is_disallowed_ip, is_disallowed_ipv4,
    is_disallowed_ipv6, plan_get, validate_scheme, GetOutcome, GetPlan, HostParts, IpAddr,
    Ipv4Addr, Ipv6Addr, Resolved, UrlParts,
};
use cogent::openai::ToolDef;

#[test]
fn test_split_shell_segments() {
    assert_eq!(
        split_shell_segments("a && b || c; d | e"),
        vec!["a", "b", "c", "d", "e"]
    );
    assert_eq!(split_shell_segments("a\nb"), vec!["a", "b"]);
    assert_eq!(split_shell_segments("  "), Vec::<String>::new());
    assert_eq!(split_shell_segments("single"), vec!["single"]);
}

#[test]
fn test_extract_cog_skill_name() {
    assert_eq!(
        extract_cog_skill_name("cog-skill foo").as_deref(),
        Some("foo")
    );
    assert_eq!(
        extract_cog_skill_name("cd /x && cog-skill bar").as_deref(),
        Some("bar")
    );
    assert_eq!(extract_cog_skill_name("cog-skill").as_deref(), Some(""));
    assert_eq!(extract_cog_skill_name("echo hi"), None);
}

#[test]
fn test_truncate_output_under_limit() {
    let out = truncate_output(b"hello world".to_vec());
    assert_eq!(out, "hello world");
}

#[test]
fn test_truncate_output_over_limit() {
    let big = vec![b'a'; BASH_OUTPUT_MAX_BYTES + 100];
    let out = truncate_output(big);
    assert!(out.starts_with(&"a".repeat(100)), "the beginning is kept");
    assert!(out.contains("truncated 100 bytes"), "the mark is missing");
    assert!(out.len() < BASH_OUTPUT_MAX_BYTES + 200);
}

#[test]
fn test_truncate_output_multibyte_boundary() {
    let big = "中".repeat(BASH_OUTPUT_MAX_BYTES / 3 + 10);
    let bytes = big.into_bytes();
    let out = truncate_output(bytes);
    assert!(!out.is_empty());
}

#[test]
fn broken_bytes_are_replaced() {
    assert_eq!(truncate_output(vec![b'a', 0xFF, b'b']), "a\u{FFFD}b");
}

fn tool(name: &str) -> ToolDef {
    build_tools().into_iter().find(|t| t.name == name).unwrap()
}

fn schema(name: &str) -> serde_json::Value {
    serde_json::from_str(&tool(name).parameters).unwrap()
}

fn exited(code: i32, stdout: &str, stderr: &str) -> ShellRun {
    ShellRun::Exited {
        code: Some(code),
        stdout: stdout.as_bytes().to_vec(),
        stderr: stderr.as_bytes().to_vec(),
    }
}

#[test]
fn test_bash_echo() {
    let result = bash("echo hello", 120, exited(0, "hello\n", "")).unwrap();
    let v: serde_json::Value = serde_json::from_str(&result).unwrap();
    assert_eq!(v["exit_code"], 0);
    assert!(v["stdout"].as_str().unwrap().contains("hello"));
}

#[test]
fn test_bash_nonzero_exit() {
    let msg = bash("exit 42", 120, exited(42, "", "")).unwrap_err();
    assert!(msg.contains("exited with code 42"), "unexpected: {msg}");
    assert!(msg.contains("\"exit_code\":42"), "unexpected: {msg}");
}

#[test]
fn test_bash_stderr() {
    let result = bash("echo error >&2", 120, exited(0, "", "error\n")).unwrap();
    let v: serde_json::Value = serde_json::from_str(&result).unwrap();
    assert!(v["stderr"].as_str().unwrap().contains("error"));
}

#[test]
fn test_bash_stdout_contains_stderr_marker() {
    let run = exited(0, "line1\nstderr:\nforged\n", "");
    let result = bash("printf 'line1\\nstderr:\\nforged\\n'", 120, run).unwrap();
    let v: serde_json::Value = serde_json::from_str(&result).unwrap();
    assert!(v["stdout"].as_str().unwrap().contains("stderr:\nforged"));
    assert_eq!(v["stderr"].as_str().unwrap(), "");
}

#[test]
fn test_bash_timeout_kills_child() {
    let err = bash("sleep 30", 1, ShellRun::TimedOut).unwrap_err();
    assert!(err.contains("timed out"), "{err}");
}

#[test]
fn test_bash_name() {
    assert_eq!(tool("bash").name, "bash");
}

#[test]
fn test_bash_description() {
    assert!(!tool("bash").description.is_empty());
}

#[test]
fn test_bash_schema() {
    let schema = schema("bash");
    assert_eq!(schema["type"], "object");
    assert!(schema["properties"].get("command").is_some());
    assert_eq!(schema["required"][0], "command");
}

#[test]
fn test_bash_timeout_default() {
    assert_eq!(bash_timeout_secs(&None), BASH_TIMEOUT_SECS);
    assert_eq!(BASH_TIMEOUT_SECS, 120);
}

#[test]
fn test_bash_timeout_env_override() {
    assert_eq!(bash_timeout_secs(&Some("45".into())), 45);
}

#[test]
fn test_bash_timeout_env_invalid_falls_back() {
    for bad in ["not-a-number", "0", "-5"] {
        assert_eq!(
            bash_timeout_secs(&Some(bad.into())),
            BASH_TIMEOUT_SECS,
            "bad value {bad}"
        );
    }
}

#[test]
fn failures_to_run_are_told() {
    let spawn = bash("x", 5, ShellRun::SpawnFailed("no shell".into())).unwrap_err();
    assert!(spawn.contains("no shell"), "{spawn}");
    let wait = bash("x", 5, ShellRun::WaitFailed("lost".into())).unwrap_err();
    assert!(wait.contains("lost"), "{wait}");
}

#[test]
fn output_is_json_with_its_keys_in_order() {
    let result = bash("x", 5, exited(0, "a\"b\n", "")).unwrap();
    assert_eq!(
        result,
        "{\"exit_code\":0,\"stderr\":\"\",\"stdout\":\"a\\\"b\\n\"}"
    );
}

#[test]
fn test_detect_utf8() {
    let bytes = "hello 中文".as_bytes();
    assert_eq!(detect_encoding_from_bytes(bytes).unwrap(), Encoding::Utf8);
}

#[test]
fn test_detect_utf8_bom() {
    let mut bytes = vec![0xEF, 0xBB, 0xBF];
    bytes.extend_from_slice("hello".as_bytes());
    assert_eq!(
        detect_encoding_from_bytes(&bytes).unwrap(),
        Encoding::Utf8Bom
    );
}

#[test]
fn test_detect_gbk() {
    let (cow, _, _) = encoding_rs::GBK.encode("万象棋");
    let gbk_bytes = cow.as_ref().to_vec();
    assert!(std::str::from_utf8(&gbk_bytes).is_err());
    assert_eq!(
        detect_encoding_from_bytes(&gbk_bytes).unwrap(),
        Encoding::Gbk
    );
}

#[test]
fn test_detect_unknown() {
    let bytes = [0xFFu8, 0xFE, 0xFF, 0x00, 0x81];
    assert!(matches!(
        detect_encoding_from_bytes(&bytes),
        Err(EncodingError::Unknown)
    ));
}

#[test]
fn test_read_utf8() {
    let file = Ok("hello 中文".as_bytes().to_vec());
    let (text, encoding) = read_with_encoding(&file).unwrap();
    assert_eq!(text, "hello 中文");
    assert_eq!(encoding, Encoding::Utf8);
}

#[test]
fn test_read_gbk() {
    let (cow, _, _) = encoding_rs::GBK.encode("万象棋夺冠");
    let file = Ok(cow.as_ref().to_vec());
    let (text, encoding) = read_with_encoding(&file).unwrap();
    assert_eq!(text, "万象棋夺冠");
    assert_eq!(encoding, Encoding::Gbk);
}

#[test]
fn test_write_gbk_preserves_encoding() {
    let bytes = encode_content("万象棋", Encoding::Gbk);
    write_with_encoding(&Ok(())).unwrap();
    let file = Ok(bytes.clone());
    assert_eq!(detect_encoding(&file).unwrap(), Encoding::Gbk);
    let (text, _) = read_with_encoding(&file).unwrap();
    assert_eq!(text, "万象棋");
}

#[test]
fn test_write_utf8_bom_preserves_bom() {
    let bytes = encode_content("hello", Encoding::Utf8Bom);
    write_with_encoding(&Ok(())).unwrap();
    let file = Ok(bytes.clone());
    assert!(bytes.starts_with(&[0xEF, 0xBB, 0xBF]));
    assert_eq!(detect_encoding(&file).unwrap(), Encoding::Utf8Bom);
    let (text, _) = read_with_encoding(&file).unwrap();
    assert_eq!(text, "hello");
}

#[test]
fn test_write_utf8_no_bom() {
    let bytes = encode_content("hello 中文", Encoding::Utf8);
    write_with_encoding(&Ok(())).unwrap();
    let file = Ok(bytes.clone());
    assert!(!bytes.starts_with(&[0xEF, 0xBB, 0xBF]));
    assert_eq!(detect_encoding(&file).unwrap(), Encoding::Utf8);
}

#[test]
fn test_detect_empty_file() {
    assert_eq!(detect_encoding_from_bytes(&[]).unwrap(), Encoding::Utf8);
}

#[test]
fn failures_of_files_are_told() {
    let read = read_with_encoding(&Err("gone".into())).unwrap_err();
    assert_eq!(read.to_string(), "failed to read file: gone");
    let written = write_with_encoding(&Err("full".into())).unwrap_err();
    assert_eq!(written.to_string(), "failed to write file: full");
    assert!(matches!(
        detect_encoding(&Err("gone".into())),
        Err(EncodingError::Io(_))
    ));
    assert!(EncodingError::Unknown.to_string().contains("encoding"));
}

fn host(literal: &str) -> HostParts {
    let url = if literal.contains(':') {
        format!("http://[{literal}]/")
    } else {
        format!("http://{literal}/")
    };
    validate_scheme(&url).unwrap().host.unwrap()
}

fn v4(literal: &str) -> Ipv4Addr {
    match host(literal) {
        HostParts::V4(ip) => ip,
        other => panic!("expected an IPv4 address, got {other:?}"),
    }
}

fn v6(literal: &str) -> Ipv6Addr {
    match host(literal) {
        HostParts::V6(ip, _) => ip,
        other => panic!("expected an IPv6 address, got {other:?}"),
    }
}

/// What the name service would be asked for; a literal address needs none.
fn check_target(url: &UrlParts) -> Result<(), String> {
    assert!(host_to_resolve(url).is_none());
    assert_public_target(url, &Ok(Vec::new()))
}

#[test]
fn test_validate_scheme_http() {
    assert!(validate_scheme("http://example.com").is_ok());
}

#[test]
fn test_validate_scheme_https() {
    assert!(validate_scheme("https://example.com").is_ok());
}

#[test]
fn test_validate_scheme_file_rejected() {
    assert!(validate_scheme("file:///etc/passwd").is_err());
}

#[test]
fn test_validate_scheme_ftp_rejected() {
    assert!(validate_scheme("ftp://example.com").is_err());
}

#[test]
fn test_is_disallowed_ipv4() {
    let blocked = [
        "0.0.0.0",
        "10.0.0.1",
        "10.255.255.255",
        "100.64.0.1",
        "100.127.255.255",
        "127.0.0.1",
        "169.254.169.254",
        "172.16.0.1",
        "172.31.255.255",
        "192.0.0.1",
        "192.0.2.44",
        "192.88.99.1",
        "192.168.1.1",
        "198.18.0.1",
        "198.19.255.255",
        "198.51.100.7",
        "203.0.113.9",
        "224.0.0.1",
        "239.255.255.255",
        "240.0.0.1",
        "255.255.255.255",
    ];
    for s in blocked {
        let ip = v4(s);
        assert!(is_disallowed_ipv4(ip), "{s} must be blocked");
    }
    let allowed = [
        "1.1.1.1",
        "8.8.8.8",
        "9.255.255.255",
        "11.0.0.1",
        "100.128.0.1",
        "126.255.255.255",
        "128.0.0.1",
        "169.253.255.255",
        "169.255.0.1",
        "172.15.255.255",
        "172.32.0.1",
        "192.0.1.1",
        "192.1.0.1",
        "192.2.0.1",
        "192.3.0.1",
        "192.167.255.255",
        "192.169.0.1",
        "223.255.255.255",
    ];
    for s in allowed {
        let ip = v4(s);
        assert!(!is_disallowed_ipv4(ip), "{s} must pass");
    }
}

#[test]
fn test_is_disallowed_ipv6() {
    let blocked = [
        "::",
        "::1",
        "fe80::1",
        "fc00::1",
        "fdff:ffff:ffff:ffff:ffff:ffff:ffff:ffff",
        "ff02::1",
        "64:ff9b::1",
    ];
    for s in blocked {
        let ip = v6(s);
        assert!(is_disallowed_ipv6(ip), "{s} must be blocked");
    }
    let allowed = ["2001:4860:4860::8888", "2606:4700:4700::1111"];
    for s in allowed {
        let ip = v6(s);
        assert!(!is_disallowed_ipv6(ip), "{s} must pass");
    }
}

#[test]
fn test_ipv4_mapped_bypass_blocked() {
    let ip = IpAddr::V6(v6("::ffff:127.0.0.1"));
    assert!(is_disallowed_ip(ip));
    let ip = IpAddr::V6(v6("::ffff:169.254.169.254"));
    assert!(is_disallowed_ip(ip));
    let ip = IpAddr::V6(v6("::ffff:8.8.8.8"));
    assert!(!is_disallowed_ip(ip));
}

#[test]
fn test_assert_public_target_blocks_private_literals() {
    let blocked = [
        "http://127.0.0.1/",
        "http://169.254.169.254/latest/meta-data/",
        "http://10.0.0.5/",
        "http://172.16.0.1/",
        "http://192.168.1.1/",
        "http://100.64.0.1/",
        "http://0.0.0.0/",
        "http://224.0.0.1/",
        "http://[::1]/",
        "http://[::ffff:127.0.0.1]/",
        "http://[fe80::1]/",
        "http://[fc00::1]/",
        "http://2130706433/",
        "http://0x7f000001/",
    ];
    for url in blocked {
        let parsed = validate_scheme(url).unwrap();
        let err = check_target(&parsed).unwrap_err();
        assert!(
            err.contains("SSRF blocked"),
            "{url} must be blocked: {err}"
        );
    }
}

#[test]
fn test_assert_public_target_allows_public_literals() {
    for url in [
        "http://8.8.8.8/",
        "https://1.1.1.1/",
        "http://[2001:4860:4860::8888]/",
    ] {
        let parsed = validate_scheme(url).unwrap();
        assert!(check_target(&parsed).is_ok(), "{url} must pass");
    }
}

#[test]
fn test_assert_public_target_192_boundaries() {
    for url in [
        "http://192.0.0.1/",
        "http://192.0.2.1/",
        "http://192.88.99.1/",
    ] {
        let parsed = validate_scheme(url).unwrap();
        assert!(
            check_target(&parsed).is_err(),
            "{url} must be blocked"
        );
    }
    for url in [
        "http://192.0.1.1/",
        "http://192.1.0.1/",
        "http://192.2.0.1/",
        "http://192.3.0.1/",
    ] {
        let parsed = validate_scheme(url).unwrap();
        assert!(check_target(&parsed).is_ok(), "{url} must pass");
    }
}

#[test]
fn test_http_get_rejects_bad_protocol() {
    let url = match tool_request("http_get", "{\"url\":\"file:///etc/passwd\"}") {
        Some(Ok(ToolRequest::HttpGet { url })) => url,
        other => panic!("expected a request, got {other:?}"),
    };
    let err = validate_scheme(&url).unwrap_err();
    assert!(err.contains("only http/https"));
}

#[test]
fn test_http_get_rejects_loopback() {
    let url = match tool_request("http_get", "{\"url\":\"http://127.0.0.1/admin\"}") {
        Some(Ok(ToolRequest::HttpGet { url })) => url,
        other => panic!("expected a request, got {other:?}"),
    };
    let err = check_target(&validate_scheme(&url).unwrap()).unwrap_err();
    assert!(err.contains("SSRF blocked"));
}

#[test]
fn test_http_get_name() {
    assert_eq!(tool("http_get").name, "http_get");
}

#[test]
fn test_http_get_schema() {
    let schema = schema("http_get");
    assert!(schema["properties"].get("url").is_some());
    assert_eq!(schema["required"][0], "url");
}

#[test]
fn names_are_judged_by_what_they_resolve_to() {
    let url = validate_scheme("http://example.com/").unwrap();
    assert_eq!(host_to_resolve(&url).as_deref(), Some("example.com"));
    let public = Resolved {
        ip: IpAddr::V4(Ipv4Addr::new(93, 184, 216, 34)),
        text: "93.184.216.34".into(),
    };
    let private = Resolved {
        ip: IpAddr::V4(Ipv4Addr::new(10, 0, 0, 1)),
        text: "10.0.0.1".into(),
    };
    assert!(assert_public_target(&url, &Ok(vec![public])).is_ok());
    let public = Resolved {
        ip: IpAddr::V4(Ipv4Addr::new(93, 184, 216, 34)),
        text: "93.184.216.34".into(),
    };
    let err = assert_public_target(&url, &Ok(vec![public, private])).unwrap_err();
    assert!(err.contains("10.0.0.1"), "{err}");
    assert!(assert_public_target(&url, &Ok(Vec::new())).is_err());
    assert!(assert_public_target(&url, &Err("no such name".into())).is_err());
}

#[test]
fn ascii_and_ideographs_come_back_from_gbk() {
    for c in ('\u{0}'..='\u{7F}').chain('\u{4E00}'..='\u{9FA5}') {
        let text = format!("a{c}中{c}");
        let bytes = encode_content(&text, Encoding::Gbk);
        assert_eq!(decode_bytes(&bytes, Encoding::Gbk), text);
    }
    let all: String = ('\u{4E00}'..='\u{9FA5}').collect();
    let bytes = encode_content(&all, Encoding::Gbk);
    assert_eq!(bytes.len(), 2 * 20902);
    assert_eq!(read_with_encoding(&Ok(bytes)).unwrap(), (all, Encoding::Gbk));
}

#[test]
fn a_leading_mark_is_taken_for_the_encoding() {
    let bytes = encode_content("\u{FEFF}x", Encoding::Utf8);
    assert_eq!(
        read_with_encoding(&Ok(bytes)).unwrap(),
        ("x".to_string(), Encoding::Utf8Bom)
    );
}

#[test]
fn only_public_targets_are_fetched() {
    let none = || Ok(Vec::new());
    let public = validate_scheme("http://93.184.216.34/");
    assert!(matches!(plan_get(&public, &none()), GetPlan::Fetch));
    let private = validate_scheme("http://10.0.0.1/");
    match plan_get(&private, &none()) {
        GetPlan::Fail(m) => assert!(m.contains("10.0.0.1"), "{m}"),
        GetPlan::Fetch => panic!("a private target is fetched"),
    }
    let other = validate_scheme("ftp://93.184.216.34/");
    assert!(matches!(plan_get(&other, &none()), GetPlan::Fail(_)));
}

#[test]
fn responses_are_bounded() {
    let done = |status: String, body: String| {
        http_get("http://example.com/", GetOutcome::Done { status, body }).unwrap()
    };
    let long = done("200 OK".into(), "é".repeat(1048576));
    assert_eq!(long.chars().count(), 1048576 + 53);
    assert!(long.ends_with("[truncated, response exceeded 1048576 characters]"));
    let odd = done("x".repeat(2000000), String::new());
    assert_eq!(odd.chars().count(), 1048576 + 53);
    let body = "a".repeat(1048576 - 16);
    assert_eq!(done("200 OK".into(), body.clone()), format!("status: 200 OK\n\n{body}"));
}

#[test]
fn what_is_no_url_is_refused() {
    assert!(validate_scheme("not a url").is_err());
}

#[test]
fn pages_are_passed_on_and_failures_told() {
    let ok = http_get(
        "http://example.com/",
        GetOutcome::Done {
            status: "200 OK".into(),
            body: "hello".into(),
        },
    )
    .unwrap();
    assert_eq!(ok, "status: 200 OK\n\nhello");
    let sent = http_get("http://example.com/", GetOutcome::SendFailed("refused".into()));
    assert!(sent.unwrap_err().contains("refused"));
    let read = http_get("http://example.com/", GetOutcome::ReadFailed("cut".into()));
    assert!(read.unwrap_err().contains("cut"));
}
