//! The gateway as Home Assistant sees it.

use crate::gateway::config::Config;
use crate::gateway::mqtt::{
    command_of_notification, notification_command, package_published, package_publishes,
    publish_views, Notification, Publish, QoS, Scheme,
};
use crate::gateway::{Command, Package};
use vstd::prelude::*;
use vstd::string::StringExecFns;

verus! {

/// The topics of Home Assistant: a light's state is published, without
/// being retained, under the prefix, `switch` and the light's identifier; a
/// button's under the prefix, `binary_sensor` and the button's identifier.
pub open spec fn is_scheme(scheme: Scheme, config: Config) -> bool {
    &&& scheme.light_head@ == config.mqtt.homeassistant.prefix@ + "/switch/"@
    &&& scheme.light_tail@.len() == 0
    &&& scheme.light_qos == QoS::AtMostOnce
    &&& !scheme.light_retain
    &&& scheme.button_head@ == config.mqtt.homeassistant.prefix@ + "/binary_sensor/"@
    &&& scheme.button_tail@.len() == 0
}

/// The pattern of the topics on which lights are switched.
pub open spec fn set_pattern(config: Config) -> Seq<char> {
    config.mqtt.homeassistant.prefix@ + "/switch/([^/]+)/set"@
}

/// The topics of Home Assistant.
pub fn scheme(config: &Config) -> (r: Scheme)
    ensures
        is_scheme(r, *config),
{
    let mut light_head = config.mqtt.homeassistant.prefix.clone();
    light_head.append("/switch/");
    let mut button_head = config.mqtt.homeassistant.prefix.clone();
    button_head.append("/binary_sensor/");
    Scheme {
        light_head,
        light_tail: String::new(),
        light_qos: QoS::AtMostOnce,
        light_retain: false,
        button_head,
        button_tail: String::new(),
    }
}

/// The messages that tell Home Assistant of a package.
pub fn handle_package(config: &Config, package: &Package) -> (r: Vec<Publish>)
    ensures
        exists|s: Scheme| #[trigger]
            is_scheme(s, *config) && publish_views(r@) == package_published(s, *config, *package),
{
    let s = scheme(config);
    package_publishes(&s, config, package)
}

/// The command that a message of Home Assistant asks for.
pub fn handle_notification(config: &Config, notification: &Notification) -> (r: Option<Command>)
    ensures
        match notification_command(
            set_pattern(*config),
            config.lights@,
            notification.topic_name@,
            notification.payload@,
        ) {
            Some(byte) => r matches Some(command) && command@ == byte,
            None => r is None,
        },
{
    let mut pattern = config.mqtt.homeassistant.prefix.clone();
    pattern.append("/switch/([^/]+)/set");
    command_of_notification(pattern.as_str(), config, notification)
}

/// What Home Assistant is told of a button or a light when the gateway
/// starts: under which name it goes and on which topics it speaks and
/// listens.
#[derive(Clone, Debug, PartialEq, Eq)]
pub struct Discovery {
    /// The topic on which the description is published.
    pub config_topic: String,
    pub name: String,
    pub state_topic: String,
    /// The topic on which a light is switched; a button has none.
    pub command_topic: Option<String>,
}

/// The name to show: the thing's own, or its identifier where it has none.
pub open spec fn shown_name(name: Seq<char>, id: Seq<char>) -> Seq<char> {
    if name.len() == 0 {
        id
    } else {
        name
    }
}

/// What Home Assistant is told of the button at `index`.
pub fn button_discovery(config: &Config, index: usize) -> (r: Discovery)
    requires
        index < config.buttons@.len(),
    ensures
        r.state_topic@ == config.mqtt.homeassistant.prefix@ + "/binary_sensor/"@
            + config.buttons@[index as int].0@,
        r.config_topic@ == r.state_topic@ + "/config"@,
        r.command_topic is None,
        r.name@ == shown_name(
            config.buttons@[index as int].1.name@,
            config.buttons@[index as int].0@,
        ),
{
    let id = &config.buttons[index].0;
    let mut state_topic = config.mqtt.homeassistant.prefix.clone();
    state_topic.append("/binary_sensor/");
    state_topic.append(id.as_str());
    let mut config_topic = state_topic.clone();
    config_topic.append("/config");
    let name = if config.buttons[index].1.name.as_str().is_empty() {
        id.clone()
    } else {
        config.buttons[index].1.name.clone()
    };
    Discovery { config_topic, name, state_topic, command_topic: None }
}

/// What Home Assistant is told of the light at `index`.
pub fn light_discovery(config: &Config, index: usize) -> (r: Discovery)
    requires
        index < config.lights@.len(),
    ensures
        r.state_topic@ == config.mqtt.homeassistant.prefix@ + "/switch/"@
            + config.lights@[index as int].0@,
        r.config_topic@ == r.state_topic@ + "/config"@,
        r.command_topic matches Some(topic) && topic@ == r.state_topic@ + "/set"@,
        r.name@ == shown_name(
            config.lights@[index as int].1.name@,
            config.lights@[index as int].0@,
        ),
{
    let id = &config.lights[index].0;
    let mut state_topic = config.mqtt.homeassistant.prefix.clone();
    state_topic.append("/switch/");
    state_topic.append(id.as_str());
    let mut config_topic = state_topic.clone();
    config_topic.append("/config");
    let mut command_topic = state_topic.clone();
    command_topic.append("/set");
    let name = if config.lights[index].1.name.as_str().is_empty() {
        id.clone()
    } else {
        config.lights[index].1.name.clone()
    };
    Discovery { config_topic, name, state_topic, command_topic: Some(command_topic) }
}

} // verus!
