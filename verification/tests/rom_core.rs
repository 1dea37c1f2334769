use bot_rs::rom_core::{
    account_url, android_letter, build_request_params, carrier_code, clean_json_trailing_commas,
    device_code_of, embedded_devices, ensure_encrypted_response,
    ensure_encrypted_response_with_context, identity_session_cookie, image_link,
    json_scalar_string, kmp_nullable_string, needs_remote_devices, plaintext_error, region_code,
    region_code_name, Device, JsonScalar, RomQuery,
};

#[test]
fn two_factor_requests_use_identity_session_cookie_like_kmp() {
    assert_eq!(identity_session_cookie("abc123"), "identity_session=abc123");
}

#[test]
fn plaintext_server_error_is_reported_readably() {
    let err = ensure_encrypted_response(
        r#"{"code":2001,"desc":"parameter error","data":null}"#.to_owned(),
    )
    .unwrap_err();

    assert_eq!(
        err,
        "Server returned plaintext response: code 2001, parameter error"
    );
}

#[test]
fn plaintext_server_error_can_include_safe_query_context() {
    let err = ensure_encrypted_response_with_context(
        r#"{"code":2001,"desc":"parameter error","data":null}"#.to_owned(),
        Some("port=2, keyLen=16, serviceTokenPresent=true"),
    )
    .unwrap_err();

    assert_eq!(
        err,
        "Server returned plaintext response: code 2001, parameter error; context: port=2, keyLen=16, serviceTokenPresent=true"
    );
}

#[test]
fn encrypted_body_passes_through_and_unparsable_json_is_quoted() {
    assert_eq!(
        ensure_encrypted_response("  abcDEF==  ".to_owned()),
        Ok("  abcDEF==  ".to_owned())
    );
    assert_eq!(
        ensure_encrypted_response(" [oops ".to_owned()),
        Err("Server returned plaintext response: [oops".to_owned())
    );
    assert_eq!(
        ensure_encrypted_response(r#"{"message":"busy"}"#.to_owned()),
        Err("Server returned plaintext response: busy".to_owned())
    );
    assert_eq!(
        ensure_encrypted_response(r#"{"code":true,"desc":"null"}"#.to_owned()),
        Err("Server returned plaintext response: code true".to_owned())
    );
}

#[test]
fn plaintext_error_reads_given_fields() {
    let fields = vec![
        JsonScalar::Null,
        JsonScalar::Text(String::new()),
        JsonScalar::Text("described".to_owned()),
        JsonScalar::Text("ignored".to_owned()),
    ];
    assert_eq!(
        plaintext_error("{x}", Some(fields), Some("")),
        "Server returned plaintext response: described"
    );
    assert_eq!(
        plaintext_error("{x}", None, Some("c")),
        "Server returned plaintext response: {x}; context: c"
    );
}

#[test]
fn login_numeric_fields_are_serialized_like_kotlin_json_primitive_content() {
    assert_eq!(
        json_scalar_string(&JsonScalar::Number("1234567890".to_owned())).as_deref(),
        Some("1234567890")
    );
    assert_eq!(
        json_scalar_string(&JsonScalar::Text("encrypted-user".to_owned())).as_deref(),
        Some("encrypted-user")
    );
    assert_eq!(json_scalar_string(&JsonScalar::Null), None);
    assert_eq!(json_scalar_string(&JsonScalar::Text("null".to_owned())), None);
    assert_eq!(
        json_scalar_string(&JsonScalar::Flag(false)).as_deref(),
        Some("false")
    );
}

fn query(region: &str, carrier: &str, system_version: &str) -> RomQuery {
    RomQuery {
        code_name: "pudding".to_owned(),
        device_region: region.to_owned(),
        device_carrier: carrier.to_owned(),
        android_version: "16.0".to_owned(),
        system_version: system_version.to_owned(),
        devices: embedded_devices(),
        ..Default::default()
    }
}

#[test]
fn request_params_match_kmp_rules() {
    let query = query("EEA (EU)", "Vodafone", "OS3.0.306.0.AUTO");
    let params = build_request_params(&query, &[]);
    assert_eq!(params.region_code, "EU");
    assert_eq!(params.carrier_code, "VF");
    assert_eq!(params.code_name_ext, "pudding_eea_vf_global");
    assert_eq!(params.system_version_ext, "OS3.0.306.0.WPCEUVF");
}

#[test]
fn request_params_cover_demo_os1_dev_and_carrier_suffix_edges() {
    let demo = query("Default (CN)", "MiStore (Demo)", "os1.0.1.0.auto");
    let demo_params = build_request_params(&demo, &[]);
    assert_eq!(demo_params.code_name_ext, "pudding_demo");
    assert_eq!(demo_params.system_version_ext, "V816.0.1.0.WPCCNDM");
    assert_eq!(demo_params.branch_ext, "F");

    let dev = query("GL (MI)", "SoftBank", "OS3.0.1.DEV");
    let dev_params = build_request_params(&dev, &[]);
    assert_eq!(dev_params.carrier_code, "SB");
    assert_eq!(dev_params.code_name_ext, "pudding_ti_global");
    assert_eq!(dev_params.system_version_ext, "OS3.0.1.DEV");
    assert_eq!(dev_params.branch_ext, "X");
}

#[test]
fn unknown_device_takes_its_code_from_the_published_list() {
    let mut q = query("Default (CN)", "Default (Xiaomi)", "OS2.0.1.0.AUTO");
    q.code_name = "zeus".to_owned();
    q.devices = Vec::new();
    assert!(needs_remote_devices(&q.devices, "16.0", "zeus"));
    assert!(!needs_remote_devices(&q.devices, "16.0", "pudding"));
    assert!(!needs_remote_devices(&q.devices, "3.0", "zeus"));
    let remote = vec![Device {
        device_name: "Xiaomi 12 Pro".to_owned(),
        device_code_name: "zeus".to_owned(),
        device_code: "LC".to_owned(),
    }];
    let params = build_request_params(&q, &remote);
    assert_eq!(params.system_version_ext, "OS2.0.1.0.WLCCNXM");
    assert_eq!(params.code_name_ext, "zeus");
    let without = build_request_params(&q, &[]);
    assert_eq!(without.system_version_ext, "OS2.0.1.0.");
    assert_eq!(
        device_code_of(&[], "99.0", "pudding", "CN", "XM", &[]),
        ""
    );
}

#[test]
fn region_and_carrier_tables() {
    assert_eq!(region_code("Default (CN)"), "CN");
    assert_eq!(region_code("TW"), "TW");
    assert_eq!(region_code("Mars"), "");
    assert_eq!(region_code_name("EEA (EU)"), "_eea_global");
    assert_eq!(region_code_name("Default (CN)"), "");
    assert_eq!(carrier_code("Telefónica"), "TF");
    assert_eq!(android_letter("8.1"), Some("O"));
    assert_eq!(android_letter("8.2"), None);
}

#[test]
fn device_list_json_cleaner_removes_trailing_commas_before_closers() {
    let raw = r#"{"devices":[{"deviceName":"A","deviceCodeName":"a","deviceCode":"AA",},	],"version":"2",}"#;
    let cleaned = clean_json_trailing_commas(raw);
    let parsed: serde_json::Value = serde_json::from_str(&cleaned).unwrap();
    assert_eq!(parsed["version"], "2");
    assert_eq!(parsed["devices"][0]["deviceCodeName"], "a");
    assert!(!cleaned.contains(",}"));
    assert!(!cleaned.contains(",\t]"));
}

#[test]
fn cleaner_keeps_inner_commas() {
    assert_eq!(clean_json_trailing_commas("[1, 2 ,\n ]"), "[1, 2 \n ]");
    assert_eq!(clean_json_trailing_commas("a,b"), "a,b");
    assert_eq!(clean_json_trailing_commas(","), ",");
}

#[test]
fn account_and_image_links() {
    assert_eq!(account_url("/pass/x"), "https://account.xiaomi.com/pass/x");
    assert_eq!(account_url("pass/x"), "https://account.xiaomi.com/pass/x");
    assert_eq!(account_url("https://a.b/c"), "https://a.b/c");
    assert_eq!(kmp_nullable_string(None), "null");
    assert_eq!(kmp_nullable_string(Some("x")), "x");
    assert_eq!(
        image_link("http://img.example.com/", Some("a.png")),
        "https://img.example.com/a.png"
    );
    assert_eq!(image_link("https://i/", None), "https://i/");
}
