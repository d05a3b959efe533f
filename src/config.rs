//! The agent's configuration: device identity, camera access and topics.
use vstd::prelude::*;
use vstd::string::StringExecFns;
use crate::text::chars_of;

verus! {

pub open spec fn default_vapix_credential() -> Seq<char> {
    "cloudcam"@
}

pub fn default_vapix_username() -> (r: String)
    ensures
        r@ == default_vapix_credential(),
{
    String::from_str("cloudcam")
}

pub fn default_vapix_password() -> (r: String)
    ensures
        r@ == default_vapix_credential(),
{
    String::from_str("cloudcam")
}

/// Access to the camera's HTTP API.
#[derive(Debug)]
pub struct AxisConfig {
    pub vapix_host: Option<String>,
    pub vapix_username: String,
    pub vapix_password: String,
    pub snapshot_media_props: String,
}

impl Default for AxisConfig {
    fn default() -> (r: AxisConfig)
        ensures
            r.vapix_host is None,
            r.vapix_username@ == default_vapix_credential(),
            r.vapix_password@ == default_vapix_credential(),
            r.snapshot_media_props@ == Seq::<char>::empty(),
    {
        AxisConfig {
            vapix_host: None,
            vapix_username: default_vapix_username(),
            vapix_password: default_vapix_password(),
            snapshot_media_props: String::new(),
        }
    }
}

/// The camera's RTSP stream, where there is one.
#[derive(Debug)]
pub struct RtspConfig {
    pub uri: Option<String>,
}

impl Default for RtspConfig {
    fn default() -> (r: RtspConfig)
        ensures
            r.uri is None,
    {
        RtspConfig { uri: None }
    }
}

/// The message bus topics of one device.
#[derive(Debug)]
pub struct MqttTopicsConfig {
    pub commands: String,
    pub shadow_delta: String,
    pub shadow_update: String,
}

impl Default for MqttTopicsConfig {
    fn default() -> (r: MqttTopicsConfig)
        ensures
            r.commands@ == Seq::<char>::empty(),
            r.shadow_delta@ == Seq::<char>::empty(),
            r.shadow_update@ == Seq::<char>::empty(),
    {
        MqttTopicsConfig { commands: String::new(), shadow_delta: String::new(), shadow_update: String::new() }
    }
}

impl MqttTopicsConfig {
    /// The topics of the device named `thing_name`.
    pub fn new(thing_name: &String) -> (r: MqttTopicsConfig)
        ensures
            r.commands@ == "cloudcam/"@ + thing_name@ + "/commands"@,
            r.shadow_delta@ == "$aws/things/"@ + thing_name@ + "/shadow/update/delta"@,
            r.shadow_update@ == "$aws/things/"@ + thing_name@ + "/shadow/update"@,
    {
        let mut commands = String::from_str("cloudcam/");
        commands.append(thing_name.as_str());
        commands.append("/commands");
        let mut shadow_delta = String::from_str("$aws/things/");
        shadow_delta.append(thing_name.as_str());
        shadow_delta.append("/shadow/update/delta");
        let mut shadow_update = String::from_str("$aws/things/");
        shadow_update.append(thing_name.as_str());
        shadow_update.append("/shadow/update");
        MqttTopicsConfig { commands, shadow_delta, shadow_update }
    }
}

/// The whole configuration of the agent.
#[derive(Debug)]
pub struct Config {
    pub thing_name: String,
    pub thing_type_name: String,
    pub mqtt_client_id: String,
    pub mqtt_endpoint: String,
    pub ca_pem: String,
    pub cert_pem: String,
    pub cert_private_key: String,
    pub axis: AxisConfig,
    pub rtsp: RtspConfig,
    pub mqtt_topics: MqttTopicsConfig,
}

/// The endpoint as given where it names a port (holds a `:`), else with the
/// default MQTT TLS port 8883 appended.
pub open spec fn endpoint_with_port_of(e: Seq<char>) -> Seq<char> {
    if e.contains(':') {
        e
    } else {
        e + ":8883"@
    }
}

pub fn endpoint_with_port(endpoint: &str) -> (r: String)
    ensures
        r@ == endpoint_with_port_of(endpoint@),
{
    let c = chars_of(endpoint);
    let mut i: usize = 0;
    while i < c.len()
        invariant
            i <= c@.len(),
            c@ == endpoint@,
            forall|j: int| 0 <= j < i ==> c@[j] != ':',
        decreases c@.len() - i,
    {
        if c[i] == ':' {
            return String::from_str(endpoint);
        }
        i = i + 1;
    }
    let mut r = String::from_str(endpoint);
    r.append(":8883");
    r
}

impl Config {
    /// Fills in what the configuration file leaves to be derived: the topic
    /// names of the device, and the endpoint's port.
    pub fn complete(&mut self)
        ensures
            final(self).mqtt_topics.commands@ == "cloudcam/"@ + old(self).thing_name@ + "/commands"@,
            final(self).mqtt_topics.shadow_delta@ == "$aws/things/"@ + old(self).thing_name@ + "/shadow/update/delta"@,
            final(self).mqtt_topics.shadow_update@ == "$aws/things/"@ + old(self).thing_name@ + "/shadow/update"@,
            final(self).mqtt_endpoint@ == endpoint_with_port_of(old(self).mqtt_endpoint@),
            final(self).thing_name == old(self).thing_name,
            final(self).thing_type_name == old(self).thing_type_name,
            final(self).mqtt_client_id == old(self).mqtt_client_id,
            final(self).ca_pem == old(self).ca_pem,
            final(self).cert_pem == old(self).cert_pem,
            final(self).cert_private_key == old(self).cert_private_key,
            final(self).axis == old(self).axis,
            final(self).rtsp == old(self).rtsp,
    {
        self.mqtt_topics = MqttTopicsConfig::new(&self.thing_name);
        self.mqtt_endpoint = endpoint_with_port(self.mqtt_endpoint.as_str());
    }
}

} // verus!
