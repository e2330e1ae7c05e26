use alisms::client::Client;
use alisms::client::Error;
use alisms::encode::special_url_encode;
use alisms::sign::sign;
use alisms::sms::build_params;
use alisms::sms::canonical_query_string;
use alisms::sms::complete_send;
use alisms::sms::interpret_response;
use alisms::sms::join_phones;
use alisms::sms::string_to_sign;
use alisms::sms::SmsRequest;
use alisms::sms::SmsResponse;

fn fixed_request() -> SmsRequest {
    SmsRequest {
        phones: vec!["13800000000".to_string(), "13900000000".to_string()],
        sign_name: "Acme".to_string(),
        template_code: "SMS_001".to_string(),
        out_id: None,
        param: "{\"code\":\"1234\"}".to_string(),
    }
}

const FIXED_TS: &str = "2017-07-12T02:42:19Z";
const FIXED_NONCE: &str = "123456789";

const EXPECTED_URL: &str = "http://dysmsapi.aliyuncs.com/?Signature=XuPBzYLH3FmWBFRBEwGf7bJ5Lio%3D&AccessKeyId=testid&Action=SendSms&Format=JSON&PhoneNumbers=13800000000%2C13900000000&RegionId=cn-hangzhou&SignName=Acme&SignatureMethod=HMAC-SHA1&SignatureNonce=123456789&SignatureVersion=1.0&TemplateCode=SMS_001&TemplateParam=%7B%22code%22%3A%221234%22%7D&Timestamp=2017-07-12T02%3A42%3A19Z&Version=2017-05-25";

#[test]
fn encode_space_is_percent_20() {
    assert_eq!(special_url_encode(" "), "%20");
    assert_eq!(special_url_encode("a b"), "a%20b");
}

#[test]
fn encode_star_is_percent_2a() {
    assert_eq!(special_url_encode("*"), "%2A");
}

#[test]
fn encode_tilde_stays_literal() {
    assert_eq!(special_url_encode("~"), "~");
    assert_eq!(special_url_encode("a~b"), "a~b");
}

#[test]
fn encode_unreserved_passes_through() {
    assert_eq!(special_url_encode("AZaz09-._"), "AZaz09-._");
}

#[test]
fn encode_reserved_uses_uppercase_hex() {
    assert_eq!(special_url_encode("/"), "%2F");
    assert_eq!(special_url_encode("+"), "%2B");
    assert_eq!(special_url_encode("{\"k\":\"v\"}"), "%7B%22k%22%3A%22v%22%7D");
    assert_eq!(special_url_encode(""), "");
}

#[test]
fn encode_multibyte_encodes_each_utf8_byte() {
    assert_eq!(special_url_encode("\u{e9}"), "%C3%A9");
}

#[test]
fn canonical_keys_strictly_ascending() {
    let params = build_params(
        "id-b",
        "Zest",
        "SMS_9",
        FIXED_TS,
        "{}",
        "42",
        b"137".to_vec(),
    );
    let expected: Vec<&[u8]> = vec![
        b"AccessKeyId",
        b"Action",
        b"Format",
        b"PhoneNumbers",
        b"RegionId",
        b"SignName",
        b"SignatureMethod",
        b"SignatureNonce",
        b"SignatureVersion",
        b"TemplateCode",
        b"TemplateParam",
        b"Timestamp",
        b"Version",
    ];
    let keys: Vec<&[u8]> = params.iter().map(|p| p.key.as_slice()).collect();
    assert_eq!(keys, expected);
    for w in params.windows(2) {
        assert!(w[0].key < w[1].key);
    }
}

#[test]
fn signature_matches_reference_vector() {
    // HMAC-SHA1 with key "Jefe" over "what do ya want for nothing?",
    // base64-rendered: the classic published test vector.
    assert_eq!(sign("Jefe", "what do ya want for nothing?"), "7/zfauXrL6LSdBbV8YTfnCWafHk=");
}

#[test]
fn fixed_inputs_reproduce_url_byte_for_byte() {
    let client = Client::new("testid", "testsecret");
    let once = client.send_sms_url(&fixed_request(), FIXED_TS, FIXED_NONCE);
    let twice = client.send_sms_url(&fixed_request(), FIXED_TS, FIXED_NONCE);
    assert_eq!(once, twice);
    assert_eq!(once, EXPECTED_URL);
}

#[test]
fn scenario_two_recipients() {
    let req = fixed_request();
    let joined = join_phones(&req.phones);
    assert_eq!(joined, b"13800000000,13900000000".to_vec());

    let client = Client::new("testid", "testsecret");
    let url = client.send_sms_url(&req, FIXED_TS, FIXED_NONCE);
    let query = url.split('?').nth(1).expect("query part");
    let mut keys: Vec<&str> = query.split('&').map(|kv| kv.split('=').next().unwrap()).collect();
    assert_eq!(keys.len(), 14);
    keys.sort();
    assert_eq!(
        keys,
        vec![
            "AccessKeyId",
            "Action",
            "Format",
            "PhoneNumbers",
            "RegionId",
            "SignName",
            "Signature",
            "SignatureMethod",
            "SignatureNonce",
            "SignatureVersion",
            "TemplateCode",
            "TemplateParam",
            "Timestamp",
            "Version",
        ]
    );
}

#[test]
fn query_string_and_string_to_sign_shapes() {
    let params = build_params(
        "testid",
        "Acme",
        "SMS_001",
        FIXED_TS,
        "{\"code\":\"1234\"}",
        FIXED_NONCE,
        b"13800000000,13900000000".to_vec(),
    );
    let qs = canonical_query_string(&params);
    let qs_text = String::from_utf8(qs.clone()).unwrap();
    assert!(qs_text.starts_with("AccessKeyId=testid&Action=SendSms&"));
    let sts = string_to_sign(&qs);
    let sts_text = String::from_utf8(sts).unwrap();
    assert!(sts_text.starts_with("GET&%2F&AccessKeyId%3Dtestid"));
    assert!(!sts_text[8..].contains('&'));
}

#[test]
fn clock_based_url_is_well_formed() {
    let client = Client::new("testid", "testsecret");
    let url = client.sms_url(&fixed_request());
    assert!(url.starts_with("http://dysmsapi.aliyuncs.com/?Signature="));
    assert!(url.contains("&PhoneNumbers=13800000000%2C13900000000"));
    assert!(url.contains("&Timestamp="));
    assert!(url.contains("&SignatureNonce="));
}

#[test]
fn response_ok_reports_success() {
    let resp = SmsResponse {
        message: "whatever".to_string(),
        request_id: "r-1".to_string(),
        biz_id: "b-1".to_string(),
        code: "OK".to_string(),
    };
    assert!(interpret_response(resp).is_ok());
}

#[test]
fn response_error_reports_provider_message() {
    let resp = SmsResponse {
        message: "bad request".to_string(),
        request_id: String::new(),
        biz_id: String::new(),
        code: "Some.Error".to_string(),
    };
    match interpret_response(resp) {
        Err(Error::Internal(message)) => assert_eq!(message, "bad request"),
        _ => panic!("expected an application error"),
    }
}

#[test]
fn parsed_reply_flows_through_complete_send() {
    let resp = SmsResponse {
        message: String::new(),
        request_id: String::new(),
        biz_id: String::new(),
        code: "OK".to_string(),
    };
    assert!(complete_send(Ok(resp)).is_ok());
}

#[test]
fn transport_failure_reports_transport_error() {
    match complete_send(Err("connection refused".to_string())) {
        Err(Error::Reqwest(cause)) => assert_eq!(cause, "connection refused"),
        _ => panic!("expected a transport error"),
    }
}

#[test]
fn client_stores_credentials_unchanged() {
    let client = Client::new("id-1", "secret-1");
    assert_eq!(client.access_key, "id-1");
    assert_eq!(client.secret, "secret-1");
}

#[test]
fn out_id_does_not_enter_the_url() {
    let client = Client::new("testid", "testsecret");
    let mut req = fixed_request();
    req.out_id = Some("tracking-7".to_string());
    let url = client.send_sms_url(&req, FIXED_TS, FIXED_NONCE);
    assert_eq!(url, EXPECTED_URL);
    assert!(!url.contains("tracking-7"));
}

#[test]
fn empty_recipient_list_joins_to_empty() {
    let none: Vec<String> = Vec::new();
    assert_eq!(join_phones(&none), Vec::<u8>::new());
    let one = vec!["13800000000".to_string()];
    assert_eq!(join_phones(&one), b"13800000000".to_vec());
}
