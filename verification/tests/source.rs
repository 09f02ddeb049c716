use contract_cache::source::{
    contract_from_info, get_contract, is_success, request_url, Contract, ContractInfo, FetchError, SourceResult,
};

fn info(abi: &str, name: Option<&str>, src: Option<&str>) -> ContractInfo {
    ContractInfo {
        abi: abi.to_string(),
        contract_name: name.map(|s| s.to_string()),
        source_code: src.map(|s| s.to_string()),
    }
}

const ABI: &str = r#"[{"type":"function","name":"transfer","inputs":[{"name":"to","type":"address"}]}]"#;

#[test]
fn success_is_200_to_299() {
    assert!(!is_success(0));
    assert!(!is_success(199));
    assert!(is_success(200));
    assert!(is_success(204));
    assert!(is_success(299));
    assert!(!is_success(300));
    assert!(!is_success(404));
    assert!(!is_success(u16::MAX));
}

#[test]
fn first_entry_becomes_the_contract() {
    let reply = SourceResult::Contracts(vec![
        info(ABI, Some("Token"), Some("contract Token {}")),
        info("[]", Some("Other"), Some("contract Other {}")),
    ]);
    assert_eq!(
        get_contract("0xAAA", 200, Some(reply)),
        Ok(Contract {
            addr: "0xAAA".to_string(),
            name: Some("Token".to_string()),
            abi: Some(ABI.to_string()),
            src: Some("contract Token {}".to_string()),
        })
    );
}

#[test]
fn interface_text_that_is_not_json_is_dropped() {
    let reply = SourceResult::Contracts(vec![info("Contract source code not verified", Some(""), Some(""))]);
    assert_eq!(
        get_contract("0xAAA", 200, Some(reply)),
        Ok(Contract {
            addr: "0xAAA".to_string(),
            name: Some(String::new()),
            abi: None,
            src: Some(String::new()),
        })
    );
}

#[test]
fn json_is_judged_by_the_whole_text() {
    for (text, valid) in [
        ("[]", true),
        ("{}", true),
        ("null", true),
        ("12", true),
        ("\"text\"", true),
        (" [1, 2, {\"a\": [true, false]}] ", true),
        ("", false),
        (" ", false),
        ("[", false),
        ("[] []", false),
        ("{\"a\":1,}", false),
        ("{a:1}", false),
        ("nul", false),
        ("[1 2]", false),
    ] {
        let got = get_contract("0x1", 200, Some(SourceResult::Contracts(vec![info(text, None, None)]))).unwrap();
        let expected = if valid { Some(text.to_string()) } else { None };
        assert_eq!(got.abi, expected, "text {text:?}");
    }
}

#[test]
fn empty_list_gives_a_contract_of_which_nothing_is_known() {
    assert_eq!(
        get_contract("0xAAA", 200, Some(SourceResult::Contracts(vec![]))),
        Ok(Contract { addr: "0xAAA".to_string(), name: None, abi: None, src: None })
    );
}

#[test]
fn entry_without_name_and_source() {
    let reply = SourceResult::Contracts(vec![info("[]", None, None)]);
    assert_eq!(
        get_contract("0xB", 299, Some(reply)),
        Ok(Contract { addr: "0xB".to_string(), name: None, abi: Some("[]".to_string()), src: None })
    );
}

#[test]
fn status_outside_success_is_an_error_whatever_the_body() {
    let body = || Some(SourceResult::Contracts(vec![info("[]", Some("Token"), Some("src"))]));
    assert_eq!(get_contract("0xAAA", 500, body()), Err(FetchError::Status(500)));
    assert_eq!(get_contract("0xAAA", 404, None), Err(FetchError::Status(404)));
    assert_eq!(get_contract("0xAAA", 199, body()), Err(FetchError::Status(199)));
    assert_eq!(get_contract("0xAAA", 300, body()), Err(FetchError::Status(300)));
    assert_eq!(
        get_contract("0xAAA", 429, Some(SourceResult::Error("rate limit".to_string()))),
        Err(FetchError::Status(429))
    );
}

#[test]
fn unreadable_body_is_malformed() {
    assert_eq!(get_contract("0xAAA", 200, None), Err(FetchError::Malformed));
}

#[test]
fn error_of_the_source_is_reported_in_its_words() {
    assert_eq!(
        get_contract("0xAAA", 200, Some(SourceResult::Error("Invalid API Key".to_string()))),
        Err(FetchError::Reported("Invalid API Key".to_string()))
    );
    assert_eq!(
        get_contract("0xAAA", 200, Some(SourceResult::Error(String::new()))),
        Err(FetchError::Reported(String::new()))
    );
}

#[test]
fn contract_from_info_follows_the_flag() {
    let entry = info("not json", Some("N"), Some("S"));
    assert_eq!(
        contract_from_info("0x1", Some(&entry), false),
        Contract { addr: "0x1".to_string(), name: Some("N".to_string()), abi: None, src: Some("S".to_string()) }
    );
    assert_eq!(
        contract_from_info("0x1", Some(&entry), true),
        Contract {
            addr: "0x1".to_string(),
            name: Some("N".to_string()),
            abi: Some("not json".to_string()),
            src: Some("S".to_string()),
        }
    );
    assert_eq!(
        contract_from_info("0x1", None, false),
        Contract { addr: "0x1".to_string(), name: None, abi: None, src: None }
    );
    assert_eq!(
        contract_from_info("0x1", None, true),
        Contract { addr: "0x1".to_string(), name: None, abi: Some(String::new()), src: None }
    );
}

#[test]
fn request_url_holds_chain_address_and_key() {
    assert_eq!(
        request_url(1, "0xAAA", "KEY"),
        "https://api.etherscan.io/v2/api?chainid=1&module=contract&action=getsourcecode&address=0xAAA&apikey=KEY"
    );
    assert_eq!(
        request_url(11155111, "0xdeadbeef", ""),
        "https://api.etherscan.io/v2/api?chainid=11155111&module=contract&action=getsourcecode&address=0xdeadbeef&apikey="
    );
}

#[test]
fn request_url_writes_numbers_in_decimal() {
    for id in [0u32, 7, 9, 10, 11, 99, 100, 101, 999, 1000, 80002, 421614, 1_000_000_007, u32::MAX] {
        assert_eq!(
            request_url(id, "a", "k"),
            format!("https://api.etherscan.io/v2/api?chainid={id}&module=contract&action=getsourcecode&address=a&apikey=k")
        );
    }
}

#[test]
fn clone_of_a_contract_is_equal_to_it() {
    let c = Contract { addr: "0x1".to_string(), name: None, abi: Some("[]".to_string()), src: None };
    assert_eq!(c.clone(), c);
}
