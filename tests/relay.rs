use cloudcam::config::{endpoint_with_port, AxisConfig, MqttTopicsConfig, RtspConfig};
use cloudcam::number::decimal_string;
use cloudcam::relay::{
    destination_pair, find_port_pair, stream_target, Channel, Endpoint, IpAddress, RtpCodec, RtpDest, StreamSelection,
};
use cloudcam::uri::{rtsp_target, rtsp_target_of, UriError, UriParts};

fn ep(last: u8, port: u16) -> Endpoint {
    Endpoint { ip: IpAddress::V4(10, 0, 0, last), port }
}

#[test]
fn port_pair_after_occupied_ports() {
    // ports 40000..=40009 taken, 40010 and 40011 free
    let mut free = vec![false; 10];
    free.extend(vec![true; 10001 - 10]);
    assert_eq!(find_port_pair(40000..50000, &free), Some((40010, 40011)));
}

#[test]
fn port_pair_none_free() {
    let free = vec![true, false, true, false, true];
    assert_eq!(find_port_pair(40000..40004, &free), None);
    assert_eq!(find_port_pair(40000..40000, &Vec::new()), None);
}

#[test]
fn port_pair_needs_the_next_port() {
    let free = vec![false, true, false, true, true];
    assert_eq!(find_port_pair(100..104, &free), Some((103, 104)));
}

#[test]
fn destination_switch() {
    let mut d = RtpDest::new();
    assert_eq!(d.forward(Channel::Rtp, vec![1, 2, 3]), None);
    assert_eq!(d.forward(Channel::Rtcp, vec![4]), None);
    let (a, b) = (ep(1, 5000), ep(1, 5001));
    d.set(Some((a, b)));
    assert_eq!(d.forward(Channel::Rtp, vec![1, 2, 3]), Some((a, vec![1, 2, 3])));
    assert_eq!(d.forward(Channel::Rtcp, vec![4]), Some((b, vec![4])));
    d.set(None);
    assert_eq!(d.target(Channel::Rtp), None);
    assert_eq!(d.forward(Channel::Rtp, vec![9]), None);
}

#[test]
fn rtp_codec_passes_payload_through() {
    let mut c = RtpCodec;
    let (from, data) = c.decode(&ep(2, 6000), &[7, 8]);
    assert_eq!(from, ep(2, 6000));
    assert_eq!(data, vec![7, 8]);
    let mut out = vec![1];
    assert_eq!(c.encode((ep(3, 7000), vec![2, 3]), &mut out), ep(3, 7000));
    assert_eq!(out, vec![1, 2, 3]);
}

#[test]
fn stream_target_needs_all_fields() {
    let sel = StreamSelection {
        current: Some("s1".to_string()),
        gateway_instance: Some("gw.example.com".to_string()),
        stream_rtp_port: Some(5004),
    };
    assert_eq!(stream_target(&sel), Some(("gw.example.com".to_string(), 5004)));
    let none_current = StreamSelection { current: None, ..sel };
    assert_eq!(stream_target(&none_current), None);
    let empty_host = StreamSelection {
        current: Some("s1".to_string()),
        gateway_instance: Some(String::new()),
        stream_rtp_port: Some(5004),
    };
    assert_eq!(stream_target(&empty_host), None);
    let zero_port = StreamSelection {
        current: Some("s1".to_string()),
        gateway_instance: Some("gw".to_string()),
        stream_rtp_port: Some(0),
    };
    assert_eq!(stream_target(&zero_port), None);
    let big_port = StreamSelection {
        current: Some("s1".to_string()),
        gateway_instance: Some("gw".to_string()),
        stream_rtp_port: Some(65535),
    };
    assert_eq!(stream_target(&big_port), None);
}

#[test]
fn destination_pair_uses_next_port() {
    let ip = IpAddress::V4(192, 168, 1, 2);
    assert_eq!(destination_pair(ip, 5004), (Endpoint { ip, port: 5004 }, Endpoint { ip, port: 5005 }));
}

#[test]
fn rtsp_uri_default_port() {
    assert_eq!(rtsp_target("rtsp://cam.local/axis-media/media.amp"), Ok(("cam.local".to_string(), 554)));
}

#[test]
fn rtsp_uri_explicit_port() {
    assert_eq!(rtsp_target("rtsp://10.0.0.5:8554/stream"), Ok(("10.0.0.5".to_string(), 8554)));
}

#[test]
fn rtsp_uri_wrong_scheme() {
    assert_eq!(rtsp_target("http://cam.local/stream"), Err(UriError::NotRtsp));
    assert_eq!(rtsp_target("/just/a/path"), Err(UriError::NotRtsp));
}

#[test]
fn rtsp_uri_unparsable() {
    assert_eq!(rtsp_target("rtsp://bad host/"), Err(UriError::Parse));
}

#[test]
fn rtsp_target_of_parts() {
    let parts = UriParts { scheme: Some("rtsp".to_string()), host: Some("h".to_string()), port: None };
    assert_eq!(rtsp_target_of(&parts), Ok(("h".to_string(), 554)));
    let parts = UriParts { scheme: Some("rtsp".to_string()), host: None, port: Some(1) };
    assert_eq!(rtsp_target_of(&parts), Err(UriError::NotRtsp));
}

#[test]
fn mqtt_topics() {
    let t = MqttTopicsConfig::new(&"cam-7".to_string());
    assert_eq!(t.commands, "cloudcam/cam-7/commands");
    assert_eq!(t.shadow_delta, "$aws/things/cam-7/shadow/update/delta");
    assert_eq!(t.shadow_update, "$aws/things/cam-7/shadow/update");
}

#[test]
fn config_defaults() {
    let a = AxisConfig::default();
    assert_eq!(a.vapix_username, "cloudcam");
    assert_eq!(a.vapix_password, "cloudcam");
    assert!(a.vapix_host.is_none());
    assert!(RtspConfig::default().uri.is_none());
    assert_eq!(MqttTopicsConfig::default().commands, "");
}

#[test]
fn endpoint_port_added_when_missing() {
    assert_eq!(endpoint_with_port("iot.example.com"), "iot.example.com:8883");
    assert_eq!(endpoint_with_port("127.0.0.1:1883"), "127.0.0.1:1883");
}

#[test]
fn decimal_strings() {
    assert_eq!(decimal_string(0), "0");
    assert_eq!(decimal_string(40010), "40010");
    assert_eq!(decimal_string(u64::MAX), "18446744073709551615");
}
