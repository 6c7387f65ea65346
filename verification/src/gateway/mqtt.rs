//! What the gateway says and hears on MQTT, for Home Assistant and for
//! Homie: the messages that tell of a package of the controller, and the
//! command that a heard message asks for.

pub mod homeassistant;
pub mod homie;

use crate::gateway::config::{ButtonConfig, Config, LightConfig};
use crate::gateway::{Command, CommandType, Event, EventType, Package};
use crate::pattern::{first_group, regex_first_group};
use crate::shal::interpreter::bit_is_set;
use vstd::prelude::*;
use vstd::string::StringExecFns;

verus! {

/// How surely a message is delivered.
#[derive(Copy, Clone, Debug, PartialEq, Eq, Structural)]
pub enum QoS {
    AtMostOnce,
    AtLeastOnce,
    ExactlyOnce,
}

/// A message to publish.
#[derive(Clone, Debug, PartialEq, Eq)]
pub struct Publish {
    pub topic: String,
    pub qos: QoS,
    pub retain: bool,
    pub payload: String,
}

/// A message that was heard.
#[derive(Clone, Debug, PartialEq, Eq)]
pub struct Notification {
    pub topic_name: String,
    pub payload: Vec<u8>,
}

/// What is asked of the MQTT client.
#[derive(Clone, Debug, PartialEq, Eq)]
pub enum MqttAction {
    Publish(Publish),
    Subscribe { topic: String, qos: QoS },
}

/// A message to publish as specifications see it.
pub struct PublishView {
    pub topic: Seq<char>,
    pub qos: QoS,
    pub retain: bool,
    pub payload: Seq<char>,
}

impl View for Publish {
    type V = PublishView;

    open spec fn view(&self) -> PublishView {
        PublishView {
            topic: self.topic@,
            qos: self.qos,
            retain: self.retain,
            payload: self.payload@,
        }
    }
}

/// Messages to publish as specifications see them.
pub open spec fn publish_views(messages: Seq<Publish>) -> Seq<PublishView> {
    Seq::new(messages.len(), |i: int| messages[i]@)
}

/// A service that is told of packages and of heard messages.
pub trait MqttSubService {
    fn handle_package(&mut self, package: &Package) -> Vec<Publish>;

    fn handle_notification(&mut self, notification: &Notification) -> Option<Command>;

    fn do_disconnect(&mut self) -> Vec<Publish>;
}

/// How a service names its topics and publishes states: the topic of a
/// light's state is `light_head`, the light's identifier and `light_tail`;
/// that of a button likewise.
#[derive(Clone, Debug)]
pub struct Scheme {
    pub light_head: String,
    pub light_tail: String,
    pub light_qos: QoS,
    pub light_retain: bool,
    pub button_head: String,
    pub button_tail: String,
}

/// The text `true` or `false`.
pub open spec fn bool_text(b: bool) -> Seq<char> {
    if b {
        "true"@
    } else {
        "false"@
    }
}

/// Tells whether the output that a light is wired to is on. A light that is
/// wired to none of the thirty-two outputs is never on.
pub open spec fn light_on(state: u32, index: u8) -> bool {
    index < 32 && bit_is_set(state, index)
}

/// The message that tells the state of the light at `i`.
pub open spec fn light_published(
    scheme: Scheme,
    lights: Seq<(String, LightConfig)>,
    state: u32,
    i: int,
) -> PublishView {
    PublishView {
        topic: scheme.light_head@ + lights[i].0@ + scheme.light_tail@,
        qos: scheme.light_qos,
        retain: scheme.light_retain,
        payload: bool_text(light_on(state, lights[i].1.index)),
    }
}

/// The messages that tell the state of every light, in the order of the
/// configuration.
pub open spec fn lights_published(scheme: Scheme, lights: Seq<(String, LightConfig)>, state: u32)
    -> Seq<PublishView> {
    Seq::new(lights.len(), |i: int| light_published(scheme, lights, state, i))
}

/// The place of the first button from `from` on that is wired to an input,
/// or the number of buttons where there is none.
pub open spec fn button_from(buttons: Seq<(String, ButtonConfig)>, index: u8, from: int) -> int
    decreases buttons.len() - from,
{
    if from < 0 || from >= buttons.len() {
        buttons.len() as int
    } else if buttons[from].1.index == index {
        from
    } else {
        button_from(buttons, index, from + 1)
    }
}

/// The message that tells of an event, if the event is valid and a button
/// is wired to its input: `true` at the start of a press, `false` at its
/// end.
pub open spec fn event_published(
    scheme: Scheme,
    buttons: Seq<(String, ButtonConfig)>,
    event: Event,
) -> Seq<PublishView> {
    let place = button_from(buttons, event@ & 0x1f, 0);
    if event@ & 0x40 != 0 && place < buttons.len() {
        seq![
            PublishView {
                topic: scheme.button_head@ + buttons[place].0@ + scheme.button_tail@,
                qos: QoS::AtMostOnce,
                retain: false,
                payload: bool_text(event@ & 0x80 == 0),
            },
        ]
    } else {
        Seq::empty()
    }
}

/// The messages that tell of events, in their order.
pub open spec fn events_published(
    scheme: Scheme,
    buttons: Seq<(String, ButtonConfig)>,
    events: Seq<Event>,
) -> Seq<PublishView>
    decreases events.len(),
{
    if events.len() == 0 {
        Seq::empty()
    } else {
        events_published(scheme, buttons, events.drop_last()) + event_published(
            scheme,
            buttons,
            events.last(),
        )
    }
}

/// The messages that tell of a package: the state of every light, then the
/// events of the buttons.
pub open spec fn package_published(scheme: Scheme, config: Config, package: Package) -> Seq<
    PublishView,
> {
    lights_published(scheme, config.lights@, package.state) + events_published(
        scheme,
        config.buttons@,
        package.events@,
    )
}

/// The text `true` or `false`.
fn bool_string(b: bool) -> (r: String)
    ensures
        r@ == bool_text(b),
{
    if b {
        String::from_str("true")
    } else {
        String::from_str("false")
    }
}

/// The topic of a thing: a head, the thing's identifier and a tail.
fn thing_topic(head: &String, id: &String, tail: &String) -> (r: String)
    ensures
        r@ == head@ + id@ + tail@,
{
    let mut topic = head.clone();
    topic.append(id.as_str());
    topic.append(tail.as_str());
    topic
}

/// The messages that tell of a package.
pub fn package_publishes(scheme: &Scheme, config: &Config, package: &Package) -> (r: Vec<Publish>)
    ensures
        publish_views(r@) == package_published(*scheme, *config, *package),
{
    let mut result: Vec<Publish> = Vec::new();
    let n = config.lights.len();
    let mut i: usize = 0;
    while i < n
        invariant
            i <= n,
            n == config.lights@.len(),
            result@.len() == i,
            forall|k: int|
                0 <= k < i ==> (#[trigger] result@[k])@ == light_published(
                    *scheme,
                    config.lights@,
                    package.state,
                    k,
                ),
        decreases n - i,
    {
        let index = config.lights[i].1.index;
        let on = index < 32 && (package.state & (1u32 << index)) != 0;
        result.push(
            Publish {
                topic: thing_topic(&scheme.light_head, &config.lights[i].0, &scheme.light_tail),
                qos: scheme.light_qos,
                retain: scheme.light_retain,
                payload: bool_string(on),
            },
        );
        i += 1;
    }
    let ghost lights = publish_views(result@);
    assert(lights =~= lights_published(*scheme, config.lights@, package.state));
    let m = package.events.len();
    let buttons = config.buttons.len();
    let mut j: usize = 0;
    assert(package.events@.take(0) =~= Seq::<Event>::empty());
    assert(publish_views(result@) =~= lights + events_published(
        *scheme,
        config.buttons@,
        package.events@.take(0),
    ));
    while j < m
        invariant
            j <= m,
            m == package.events@.len(),
            buttons == config.buttons@.len(),
            publish_views(result@) == lights + events_published(
                *scheme,
                config.buttons@,
                package.events@.take(j as int),
            ),
        decreases m - j,
    {
        let ghost before = publish_views(result@);
        let ghost part = package.events@.take(j as int + 1);
        proof {
            assert(part.drop_last() =~= package.events@.take(j as int));
            assert(part.last() == package.events@[j as int]);
        }
        let event = package.events[j];
        if event.valid() {
            let wired = event.button();
            let mut k: usize = 0;
            while k < buttons && config.buttons[k].1.index != wired
                invariant
                    k <= buttons,
                    buttons == config.buttons@.len(),
                    button_from(config.buttons@, wired, 0) == button_from(
                        config.buttons@,
                        wired,
                        k as int,
                    ),
                decreases buttons - k,
            {
                k += 1;
            }
            if k < buttons {
                result.push(
                    Publish {
                        topic: thing_topic(
                            &scheme.button_head,
                            &config.buttons[k].0,
                            &scheme.button_tail,
                        ),
                        qos: QoS::AtMostOnce,
                        retain: false,
                        payload: bool_string(event.event_type() == EventType::PressStart),
                    },
                );
            }
        }
        proof {
            let told = event_published(*scheme, config.buttons@, event);
            assert(publish_views(result@) =~= before + told);
            assert(publish_views(result@) =~= lights + events_published(
                *scheme,
                config.buttons@,
                part,
            ));
        }
        j += 1;
    }
    assert(package.events@.take(m as int) =~= package.events@);
    result
}

/// The place of the first light from `from` on with an identifier, or the
/// number of lights where there is none.
pub open spec fn light_from(lights: Seq<(String, LightConfig)>, id: Seq<char>, from: int) -> int
    decreases lights.len() - from,
{
    if from < 0 || from >= lights.len() {
        lights.len() as int
    } else if lights[from].0@ == id {
        from
    } else {
        light_from(lights, id, from + 1)
    }
}

/// The byte of the command that a heard message asks for: the topic holds
/// the identifier of a light where the pattern's group matches, and the
/// payload is `true`, to switch the light on, or `false`, to switch it off.
pub open spec fn notification_command(
    pattern: Seq<char>,
    lights: Seq<(String, LightConfig)>,
    topic: Seq<char>,
    payload: Seq<u8>,
) -> Option<u8> {
    match regex_first_group(pattern, topic) {
        None => None,
        Some(id) => {
            let place = light_from(lights, id, 0);
            if place >= lights.len() {
                None
            } else if payload == seq![0x74u8, 0x72u8, 0x75u8, 0x65u8] {
                Some(0xc0u8 | (lights[place].1.index & 0x1f))
            } else if payload == seq![0x66u8, 0x61u8, 0x6cu8, 0x73u8, 0x65u8] {
                Some(0x80u8 | (lights[place].1.index & 0x1f))
            } else {
                None
            }
        },
    }
}

/// The command that a heard message asks for, if it asks for one.
pub fn command_of_notification(pattern: &str, config: &Config, notification: &Notification) -> (r:
    Option<Command>)
    ensures
        match notification_command(
            pattern@,
            config.lights@,
            notification.topic_name@,
            notification.payload@,
        ) {
            Some(byte) => r matches Some(command) && command@ == byte,
            None => r is None,
        },
{
    let light_id = match first_group(pattern, notification.topic_name.as_str()) {
        Some(id) => id,
        None => {
            return None;
        },
    };
    let payload = &notification.payload;
    let light_state = if payload.len() == 4 && payload[0] == 0x74 && payload[1] == 0x72
        && payload[2] == 0x75 && payload[3] == 0x65 {
        assert(payload@ =~= seq![0x74u8, 0x72u8, 0x75u8, 0x65u8]);
        Some(true)
    } else if payload.len() == 5 && payload[0] == 0x66 && payload[1] == 0x61 && payload[2] == 0x6c
        && payload[3] == 0x73 && payload[4] == 0x65 {
        assert(payload@ =~= seq![0x66u8, 0x61u8, 0x6cu8, 0x73u8, 0x65u8]);
        Some(false)
    } else {
        None
    };
    let n = config.lights.len();
    let mut k: usize = 0;
    while k < n && !(config.lights[k].0 == light_id)
        invariant
            k <= n,
            n == config.lights@.len(),
            light_from(config.lights@, light_id@, 0) == light_from(
                config.lights@,
                light_id@,
                k as int,
            ),
        decreases n - k,
    {
        k += 1;
    }
    if k >= n {
        return None;
    }
    match light_state {
        Some(true) => Some(Command::new(CommandType::On, config.lights[k].1.index)),
        Some(false) => Some(Command::new(CommandType::Off, config.lights[k].1.index)),
        None => None,
    }
}

/// Tells whether any MQTT service is to run.
pub fn enabled(config: &Config) -> (r: bool)
    ensures
        r == (config.mqtt.homeassistant.enabled || config.mqtt.homie.enabled),
{
    config.mqtt.homeassistant.enabled || config.mqtt.homie.enabled
}

} // verus!
