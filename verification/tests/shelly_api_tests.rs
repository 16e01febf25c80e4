use shelly_web::options::RunOptions;
use shelly_web::shelly_api::{
    add_utc_offset, authorization_header, extract_offset_from_json, meter_status_request,
    settings_request, try_add_utc_offset, ShellyApiError,
};
use shelly_web::{plug_meter_request, RunOptions as PlainRunOptions};

const SETTINGS_JSON: &str = r#"{"device":{"type":"SHPLG-S","mac":"xx","hostname":"shellyplug-s-8850CD","num_outputs":1,"num_meters":1},"wifi_ap":{"enabled":false,"ssid":"shellyplug-s-8850CD","key":""},"wifi_sta":{"enabled":true,"ssid":"intrawebs","ipv4_method":"dhcp","ip":null,"gw":null,"mask":null,"dns":null},"wifi_sta1":{"enabled":false,"ssid":null,"ipv4_method":"dhcp","ip":null,"gw":null,"mask":null,"dns":null},"ap_roaming":{"enabled":false,"threshold":-70},"mqtt": {"enable":false,"server":"192.168.33.3:1883","user":"","id":"shellyplug-s-8850CD","reconnect_timeout_max":60.000000,"reconnect_timeout_min":2.000000,"clean_session":true,"keep_alive":60,"max_qos":0,"retain":false,"update_period":30},"coiot": {"enabled":true,"update_period":15,"peer":""},"sntp":{"server":"time.google.com","enabled":true},"login":{"enabled":true,"unprotected":false,"username":"admin"},"pin_code":"","name":"Shelly-Plug-S-1","fw":"20221027-101131/v1.12.1-ga9117d3","discoverable":true,"build_info":{"build_id":"20221027-101131/v1.12.1-ga9117d3","build_timestamp":"2022-10-27T10:11:31Z","build_version":"1.0"},"cloud":{"enabled":false,"connected":false},"timezone":"Europe/Berlin","lat":49.865711,"lng":8.626040,"tzautodetect":true,"tz_utc_offset":3600,"tz_dst":false,"tz_dst_auto":true,"time":"12:41","unixtime":1672227677,"led_status_disable":true,"debug_enable":false,"allow_cross_origin":false,"actions":{"active":false,"names":["btn_on_url","out_on_url","out_off_url"]},"hwinfo":{"hw_revision":"prod-190516","batch_id":1},"max_power":2500,"led_power_disable":false,"relays":[{"name":null,"appliance_type":"General","ison":true,"has_timer":false,"default_state":"on","auto_on":0.00,"auto_off":0.00,"schedule":true,"schedule_rules":["0030-01234-off","0600-01234-on"],"max_power":2500}],"eco_mode_enabled":true}"#;

fn options_with(url: Option<&str>, auth: Option<&str>) -> RunOptions {
    RunOptions {
        host: None,
        port: 8080,
        archive: None,
        authentication: auth.map(|a| a.to_string()),
        shelly_api_url: url.map(|u| u.to_string()),
    }
}

#[test]
fn extract_offset_from_json_test() {
    let offset = extract_offset_from_json(SETTINGS_JSON);
    assert!(offset.is_ok());
    assert_eq!(3600, offset.ok().unwrap());
}

#[test]
fn extract_offset_negative_and_missing() {
    assert_eq!(extract_offset_from_json(r#"{"tz_utc_offset":-18000}"#).ok(), Some(-18000));
    assert!(matches!(
        extract_offset_from_json(r#"{"timezone":"UTC"}"#),
        Err(ShellyApiError::OffsetNotFound)
    ));
    assert!(matches!(
        extract_offset_from_json(r#"{"tz_utc_offset":"3600"}"#),
        Err(ShellyApiError::OffsetNotFound)
    ));
    assert!(matches!(
        extract_offset_from_json(r#"[1,2]"#),
        Err(ShellyApiError::OffsetNotFound)
    ));
    assert!(matches!(
        extract_offset_from_json("not json"),
        Err(ShellyApiError::InvalidJson(_))
    ));
}

#[test]
fn extract_offset_truncates_to_i32() {
    // 2^32 + 7 cut to 32 bits
    assert_eq!(extract_offset_from_json(r#"{"tz_utc_offset":4294967303}"#).ok(), Some(7));
}

#[test]
fn add_utc_offset_sets_member() {
    let written = add_utc_offset(r#"{"power":12.5,"is_valid":true}"#, 3600).ok().unwrap();
    let value: serde_json::Value = serde_json::from_str(&written).unwrap();
    assert_eq!(value["utcOffset"].as_i64(), Some(3600));
    assert_eq!(value["power"].as_f64(), Some(12.5));
    assert_eq!(value["is_valid"].as_bool(), Some(true));
}

#[test]
fn add_utc_offset_replaces_member_and_fills_null() {
    let written = add_utc_offset(r#"{"utcOffset":1}"#, -7200).ok().unwrap();
    assert_eq!(written, r#"{"utcOffset":-7200}"#);
    let from_null = add_utc_offset("null", 60).ok().unwrap();
    assert_eq!(from_null, r#"{"utcOffset":60}"#);
    assert!(matches!(add_utc_offset("{", 60), Err(ShellyApiError::InvalidJson(_))));
}

#[test]
fn try_add_utc_offset_refuses_non_objects() {
    assert!(try_add_utc_offset("[1,2,3]", 10).is_none());
    assert!(try_add_utc_offset("42", 10).is_none());
    assert!(matches!(try_add_utc_offset("{}", 10), Some(Ok(_))));
    assert!(matches!(try_add_utc_offset("nope", 10), Some(Err(ShellyApiError::InvalidJson(_)))));
}

#[test]
fn meter_status_request_builds_url_and_header() {
    let request = meter_status_request(&options_with(Some("192.168.1.7"), Some("dXNlcjpwdw==")))
        .ok()
        .unwrap();
    assert_eq!(request.url, "http://192.168.1.7/meter/0");
    assert_eq!(request.authorization, Some("Basic dXNlcjpwdw==".to_string()));
    let settings = settings_request(&options_with(Some("plug.local"), None)).ok().unwrap();
    assert_eq!(settings.url, "http://plug.local/settings");
    assert_eq!(settings.authorization, None);
}

#[test]
fn request_without_url_is_refused() {
    assert!(matches!(
        meter_status_request(&options_with(None, Some("x"))),
        Err(ShellyApiError::MissingApiUrl)
    ));
    assert!(matches!(settings_request(&options_with(None, None)), Err(ShellyApiError::MissingApiUrl)));
}

#[test]
fn authorization_header_values() {
    assert_eq!(authorization_header(&Some("abc".to_string())), Some("Basic abc".to_string()));
    assert_eq!(authorization_header(&None), None);
}

#[test]
fn plug_meter_request_uses_fixed_address() {
    let options = PlainRunOptions::new(None, None, Some("secret".to_string()));
    let request = plug_meter_request(&options);
    assert_eq!(request.url, "http://192.168.178.55/meter/0");
    assert_eq!(request.authorization, Some("Basic secret".to_string()));
}

#[test]
fn error_messages() {
    assert_eq!(ShellyApiError::MissingApiUrl.message(), "Shelly API URL nicht angegeben");
    assert_eq!(ShellyApiError::OffsetNotFound.message(), "Offset not in JSON or not parseable");
    match extract_offset_from_json("{") {
        Err(error) => assert!(!error.message().is_empty()),
        Ok(_) => panic!("expected a JSON error"),
    }
}
